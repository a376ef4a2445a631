use expert_system::engine::{assignment_count, row, truth_table, SequentialPermutationIter};
use expert_system::parallel::ParallelPermutationIter;
use expert_system::parser::Parser;
use expert_system::partition::chunk;
use expert_system::token::{EngineError, ParseError};

fn strings(rows: &[&str]) -> Vec<String> {
    rows.iter().map(|r| r.to_string()).collect()
}

#[test]
fn assignment_counts() {
    assert_eq!(assignment_count(0), 1);
    assert_eq!(assignment_count(1), 2);
    assert_eq!(assignment_count(10), 1024);
    assert_eq!(assignment_count(63), 1u64 << 63);
}

#[test]
fn row_formats_assignment_and_result() {
    let root = Parser::new().parse("A + B").unwrap();
    let vars = vec!['A', 'B'];
    assert_eq!(row(&root, &vars, 3), "11|1");
    assert_eq!(row(&root, &vars, 1), "10|0");
    assert_eq!(row(&root, &vars, 2), "01|0");
}

#[test]
fn sequential_and_of_two_variables() {
    let root = Parser::new().parse("A + B").unwrap();
    let mut it = SequentialPermutationIter::new(root, vec!['A', 'B'], 0, 4);
    assert_eq!(it.next(), Some("00|0".to_string()));
    assert_eq!(it.next(), Some("10|0".to_string()));
    assert_eq!(it.next(), Some("01|0".to_string()));
    assert_eq!(it.next(), Some("11|1".to_string()));
    assert_eq!(it.next(), None);
    assert_eq!(it.next(), None);
}

#[test]
fn sequential_sub_range() {
    let root = Parser::new().parse("A | B").unwrap();
    let mut it = SequentialPermutationIter::new(root, vec!['A', 'B'], 1, 3);
    assert_eq!(it.collect(), strings(&["10|1", "01|1"]));
    assert_eq!(it.next(), None);
    assert_eq!(it.collect(), Vec::<String>::new());
}

#[test]
fn sequential_restart_gives_the_rows_again() {
    let root = Parser::new().parse("A | B").unwrap();
    let mut it = SequentialPermutationIter::new(root, vec!['A', 'B'], 2, 4);
    assert_eq!(it.collect(), strings(&["01|1", "11|1"]));
    assert_eq!(it.next(), None);
    it.restart();
    assert_eq!(it.next(), Some("01|1".to_string()));
    it.restart();
    assert_eq!(it.collect(), strings(&["01|1", "11|1"]));
}

#[test]
fn sequential_empty_range() {
    let root = Parser::new().parse("A").unwrap();
    let mut it = SequentialPermutationIter::new(root, vec!['A'], 1, 1);
    assert_eq!(it.next(), None);
}

#[test]
fn truth_table_has_two_to_the_n_distinct_rows() {
    let rows = truth_table("A + B | C => D ^ E").unwrap();
    assert_eq!(rows.len(), 32);
    let mut sorted = rows.clone();
    sorted.sort();
    sorted.dedup();
    assert_eq!(sorted.len(), 32);
    for (k, r) in rows.iter().enumerate() {
        let digits: String = (0..5).map(|i| if (k >> i) & 1 == 1 { '1' } else { '0' }).collect();
        assert_eq!(&r[..5], digits);
    }
}

#[test]
fn truth_table_of_implication() {
    assert_eq!(truth_table("A=>Z"), Ok(strings(&["00|1", "10|0", "01|1", "11|1"])));
}

#[test]
fn truth_table_of_repeated_variable() {
    assert_eq!(truth_table("A ^ A"), Ok(strings(&["0|0", "1|0"])));
}

#[test]
fn truth_table_passes_parse_errors_on() {
    assert_eq!(truth_table("A +"), Err(ParseError::UnexpectedEndOfInput));
    assert_eq!(truth_table("a"), Err(ParseError::LexError { position: 0, character: 'a' }));
}

#[test]
fn from_formula_covers_all_assignments() {
    let it = SequentialPermutationIter::from_formula("B + A + C").unwrap();
    assert_eq!(it.variables, vec!['B', 'A', 'C']);
    assert_eq!(it.cursor, 0);
    assert_eq!(it.end, 8);
}

#[test]
fn chunks_tile_the_range() {
    assert_eq!(chunk(16, 1, 0), (0, 16));
    assert_eq!(chunk(16, 3, 0), (0, 5));
    assert_eq!(chunk(16, 3, 1), (5, 10));
    assert_eq!(chunk(16, 3, 2), (10, 16));
    assert_eq!(chunk(2, 4, 0), (0, 0));
    assert_eq!(chunk(2, 4, 3), (0, 2));
    for count in 1..20usize {
        let mut at = 0u64;
        for i in 0..count {
            let (start, end) = chunk(1024, count, i);
            assert_eq!(start, at);
            assert!(start <= end);
            at = end;
        }
        assert_eq!(at, 1024);
    }
}

#[test]
fn parallel_refuses_zero_threads() {
    let root = Parser::new().parse("A + B").unwrap();
    let r = ParallelPermutationIter::new(&root, vec!['A', 'B'], 0);
    assert!(matches!(r, Err(EngineError::InvalidThreadCount)));
}

#[test]
fn parallel_single_worker_keeps_order() {
    let root = Parser::new().parse("A + B").unwrap();
    let (mut it, workers) = ParallelPermutationIter::new(&root, vec!['A', 'B'], 1).ok().unwrap();
    assert_eq!(it.thread_count, 1);
    assert_eq!(it.receiver.capacity(), Some(4000));
    assert_eq!(workers.len(), 1);
    for w in workers {
        assert_eq!(w.run(), Ok(4));
    }
    let mut rows = Vec::new();
    for _ in 0..5 {
        match it.next() {
            Some(r) => rows.push(r),
            None => {}
        }
    }
    assert_eq!(rows, strings(&["00|0", "10|0", "01|0", "11|1"]));
}

#[test]
fn parallel_gives_the_rows_of_the_sequential_engine() {
    let formula = "A + B | C => D ^ E";
    let expected = truth_table(formula).unwrap();
    let root = Parser::new().parse(formula).unwrap();
    for threads in 1..10usize {
        let (mut it, workers) = ParallelPermutationIter::new(&root, root.variables(), threads).ok().unwrap();
        assert_eq!(workers.len(), threads);
        assert_eq!(it.receiver.capacity(), Some(4000 * threads));
        let mut sent = 0;
        for w in workers.into_iter().rev() {
            sent += w.run().unwrap();
        }
        assert_eq!(sent, 32);
        let mut rows = Vec::new();
        for _ in 0..33 {
            match it.next() {
                Some(r) => rows.push(r),
                None => {}
            }
        }
        assert_eq!(rows.len(), 32);
        rows.sort();
        let mut sorted = expected.clone();
        sorted.sort();
        assert_eq!(rows, sorted);
    }
}

#[test]
fn worker_stops_when_receiver_is_gone() {
    let root = Parser::new().parse("A + B").unwrap();
    let (it, workers) = ParallelPermutationIter::new(&root, vec!['A', 'B'], 2).ok().unwrap();
    drop(it);
    for w in workers {
        assert_eq!(w.run(), Err(0));
    }
}

#[test]
fn row_or_end_maps_the_answer_of_the_channel() {
    assert_eq!(
        ParallelPermutationIter::row_or_end(Ok("01|1".to_string())),
        Some("01|1".to_string())
    );
    assert_eq!(ParallelPermutationIter::row_or_end(Err(crossbeam::channel::RecvError)), None);
}
