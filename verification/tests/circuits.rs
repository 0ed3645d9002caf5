use plonk_core::check::{check, Violation};
use plonk_core::field::Fp;
use plonk_core::fibonacci::{fibonacci_simple, FiboChip, MyCircuit};
use plonk_core::ir::{Cell, Column, ColumnKind, EvalError, Table};
use plonk_core::layout::{AssignedCell, Error, Layouter, Region};
use plonk_core::rangecheck::{rangecheck, rangecheck_circuit};
use plonk_core::system::ConstraintSystem;

fn advice_cell(index: usize, row: usize) -> Cell {
    Cell { column: Column { kind: ColumnKind::Advice, index }, row }
}

#[test]
fn test_fibonacci() {
    let (cs, table) = fibonacci_simple(4).unwrap();
    let violations = check(&cs, &table);
    assert!(violations.is_empty());
}

#[test]
fn fibonacci_rows_hold_the_sequence() {
    let (_cs, table) = fibonacci_simple(4).unwrap();
    let expected = [1u64, 1, 2, 3, 5, 8, 13, 21, 34, 55];
    assert_eq!(table.get_cell(advice_cell(0, 0)).unwrap().as_u64(), expected[0]);
    assert_eq!(table.get_cell(advice_cell(1, 0)).unwrap().as_u64(), expected[1]);
    for row in 0..8 {
        assert_eq!(
            table.get_cell(advice_cell(2, row)).unwrap().as_u64(),
            expected[row + 2]
        );
    }
    assert!(table.get_cell(advice_cell(0, 8)).is_none());
}

#[test]
fn fibonacci_needs_eight_rows() {
    assert!(matches!(fibonacci_simple(2), Err(Error::Configuration)));
}

#[test]
fn missing_witness_aborts_synthesis() {
    let mut cs = ConstraintSystem::new();
    let config = MyCircuit::configure(&mut cs);
    let circuit = MyCircuit { a: None, b: Some(Fp::new(1)) };
    let mut layouter = Layouter::new(cs, 16);
    assert!(matches!(
        circuit.synthesize(config, &mut layouter),
        Err(Error::MissingWitness)
    ));
}

#[test]
fn test_rangecheck() {
    const RANGE: usize = 8;
    for i in 0..RANGE {
        let (cs, table) = rangecheck_circuit(4, Fp::new(i as u64)).unwrap();
        let violations = check(&cs, &table);
        assert!(violations.is_empty());
    }

    let (cs, table) = rangecheck_circuit(4, Fp::new(RANGE as u64)).unwrap();
    let violations = check(&cs, &table);
    assert_eq!(violations.len(), 1);
    match &violations[0] {
        Violation::ConstraintNotSatisfied { gate, constraint, row, cell_values } => {
            assert_eq!(cs.gates[*gate].name, "Range check");
            assert_eq!(cs.gates[*gate].constraints[*constraint].0, "range check");
            assert_eq!(*row, 0);
            assert_eq!(cell_values[0].0, advice_cell(0, 0));
            assert_eq!(format!("{:#x}", cell_values[0].1.as_u64()), "0x8");
        }
        other => panic!("unexpected violation: {:?}", other),
    }
}

#[test]
fn rangecheck_adds() {
    assert_eq!(rangecheck(2, 3), 5);
}

#[test]
fn checker_is_deterministic() {
    let (cs, table) = rangecheck_circuit(4, Fp::new(8)).unwrap();
    let first = check(&cs, &table);
    let second = check(&cs, &table);
    assert_eq!(first, second);

    let (cs, table) = fibonacci_simple(4).unwrap();
    assert_eq!(check(&cs, &table), check(&cs, &table));
}

#[test]
fn reassigning_a_cell_differently_is_a_conflict() {
    let mut cs = ConstraintSystem::new();
    let col = cs.advice_column();
    let mut layouter = Layouter::new(cs, 4);
    let mut region = Region::new("twice".to_string());
    region.assign_advice(col, 0, Fp::new(1));
    region.assign_advice(col, 0, Fp::new(2));
    match layouter.commit_region(region) {
        Err(Error::AssignmentConflict(cell)) => assert_eq!(cell, advice_cell(0, 0)),
        other => panic!("expected a conflict, got {:?}", other),
    }
}

#[test]
fn reassigning_a_cell_equally_is_accepted() {
    let mut cs = ConstraintSystem::new();
    let col = cs.advice_column();
    let mut layouter = Layouter::new(cs, 4);
    let mut region = Region::new("twice".to_string());
    region.assign_advice(col, 0, Fp::new(1));
    region.assign_advice(col, 0, Fp::new(1));
    assert_eq!(layouter.commit_region(region), Ok(0));
}

#[test]
fn copy_link_propagates_the_value() {
    let mut cs = ConstraintSystem::new();
    let col = cs.advice_column();
    cs.enable_equality(col);
    let mut layouter = Layouter::new(cs, 4);

    let mut first = Region::new("source".to_string());
    first.assign_advice(col, 0, Fp::new(7));
    assert_eq!(layouter.commit_region(first), Ok(0));
    let source = AssignedCell { cell: advice_cell(0, 0), value: Fp::new(7) };

    let mut second = Region::new("target".to_string());
    second.copy_advice(&source, col, 0);
    assert_eq!(layouter.commit_region(second), Ok(1));

    let (cs, table) = layouter.finish();
    assert_eq!(table.get_cell(advice_cell(0, 1)), Some(Fp::new(7)));
    assert_eq!(table.copies, vec![(advice_cell(0, 0), advice_cell(0, 1))]);
    assert!(check(&cs, &table).is_empty());
}

#[test]
fn unequal_linked_cells_are_reported() {
    let mut cs = ConstraintSystem::new();
    let _col = cs.advice_column();
    let table = Table {
        height: 2,
        advice: vec![vec![Some(Fp::new(1)), Some(Fp::new(2))]],
        fixed: vec![],
        instance: vec![],
        selectors: vec![],
        copies: vec![(advice_cell(0, 0), advice_cell(0, 1))],
    };
    let violations = check(&cs, &table);
    assert_eq!(
        violations,
        vec![Violation::MissingEquality { a: advice_cell(0, 0), b: advice_cell(0, 1) }]
    );
}

#[test]
fn unassigned_cell_under_active_gate_is_reported() {
    let mut cs = ConstraintSystem::new();
    let config = FiboChip::configure(&mut cs);
    let mut layouter = Layouter::new(cs, 4);
    let mut region = Region::new("only the selector".to_string());
    region.enable_selector(config.selector, 0);
    assert_eq!(layouter.commit_region(region), Ok(0));
    let (cs, table) = layouter.finish();
    let violations = check(&cs, &table);
    assert_eq!(violations.len(), 1);
    match &violations[0] {
        Violation::EvalFailed { gate, constraint, row, error } => {
            assert_eq!((*gate, *constraint, *row), (0, 0, 0));
            assert_eq!(*error, EvalError::Unassigned(advice_cell(0, 0)));
        }
        other => panic!("unexpected violation: {:?}", other),
    }
}
