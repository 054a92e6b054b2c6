use brainfuck_vm::indexed::{Get, Index, IndexOp, Indexed, LLOp, Len, Push, ToVec, VecOp};
use brainfuck_vm::numbers::{Counter, Number};
use brainfuck_vm::operators::{Add, Sub};

fn incr(tape: &mut Indexed) {
    <Indexed as VecOp<Add>>::vec_op(tape);
}

fn decr(tape: &mut Indexed) {
    <Indexed as VecOp<Sub>>::vec_op(tape);
}

fn move_right(tape: &mut Indexed) {
    <Indexed as IndexOp<Add>>::index_op(tape);
}

fn move_left(tape: &mut Indexed) {
    <Indexed as IndexOp<Sub>>::index_op(tape);
}

fn data(tape: &Indexed) -> Vec<usize> {
    brainfuck_vm::indexed::Debug::data(tape)
}

fn index(tape: &Indexed) -> usize {
    brainfuck_vm::indexed::Debug::index(tape)
}

#[test]
fn main_index() {
    let mut list = Indexed::from_values(0, &[0, 1, 2, 3]);
    assert_eq!(list.read_at(&Counter::from_usize(0)).eval(), 0);
    assert_eq!(list.read_at(&Counter::from_usize(1)).eval(), 1);
    assert_eq!(list.read_at(&Counter::from_usize(2)).eval(), 2);
    assert_eq!(list.len(), 4);
}

#[test]
fn old2_index() {
    let mut list = Indexed::from_values(0, &[0, 1, 2, 3]);
    assert_eq!(list.read_at(&Counter::from_usize(0)).eval(), 0);
    assert_eq!(list.read_at(&Counter::from_usize(1)).eval(), 1);
    assert_eq!(list.read_at(&Counter::from_usize(2)).eval(), 2);
    assert_eq!(list.len(), 4);
}

#[test]
fn main_index_out_of_bounds() {
    let mut list = Indexed::new();
    // nothing has been accessed yet, so there are no cells
    assert_eq!(list.len(), 0);
    assert_eq!(list.read_at(&Counter::from_usize(2)).eval(), 0);
    // the access has made the cell
    assert_eq!(list.len(), 3);
    assert_eq!(data(&list), [0, 0, 0]);
}

#[test]
fn old2_index_out_of_bounds() {
    let mut list = Indexed::new();
    assert_eq!(list.len(), 0);
    assert_eq!(list.read_at(&Counter::from_usize(2)).eval(), 0);
    assert_eq!(list.len(), 3);
}

#[test]
fn main_test_push() {
    let mut list = Indexed::new();
    list.push(Counter::from_usize(2));
    list.push(Counter::from_usize(1));
    assert_eq!(list.to_vec(), [2, 1]);
}

#[test]
fn old2_test_push() {
    let mut list = Indexed::new();
    list.push(Counter::from_usize(2));
    list.push(Counter::from_usize(1));
    assert_eq!(list.to_vec(), [2, 1]);
}

#[test]
fn grow_nodes() {
    let mut list = Indexed::new();
    <Indexed as LLOp<Add>>::apply_at(&mut list, &Counter::from_usize(0));
    assert_eq!(data(&list), [1]);
    <Indexed as LLOp<Add>>::apply_at(&mut list, &Counter::from_usize(2));
    assert_eq!(data(&list), [1, 0, 1]);
}

#[test]
fn basic_brainfuck() {
    let mut ram = Indexed::new();
    incr(&mut ram);
    move_right(&mut ram);
    move_right(&mut ram);
    incr(&mut ram);
    incr(&mut ram);
    move_left(&mut ram);
    incr(&mut ram);
    assert_eq!(data(&ram), [1, 1, 2]);
    assert_eq!(index(&ram), 1);
}

#[test]
fn new_tape_is_empty() {
    let tape = Indexed::new();
    assert_eq!(tape.len(), 0);
    assert_eq!(index(&tape), 0);
    assert_eq!(data(&tape), Vec::<usize>::new());
}

#[test]
fn from_values_keeps_pointer_and_cells() {
    let tape = Indexed::from_values(5, &[7, 0, 9]);
    assert_eq!(index(&tape), 5);
    assert_eq!(data(&tape), [7, 0, 9]);
    assert_eq!(tape.len(), 3);
}

#[test]
fn read_past_end_extends_to_index_plus_one() {
    for i in [0usize, 1, 5, 40] {
        let mut tape = Indexed::from_values(0, &[4]);
        let value = tape.read_at(&Counter::from_usize(i));
        if i == 0 {
            assert_eq!(value.eval(), 4);
            assert_eq!(tape.len(), 1);
        } else {
            assert_eq!(value.eval(), 0);
            assert_eq!(tape.len(), i + 1);
        }
        assert_eq!(data(&tape)[0], 4);
    }
}

#[test]
fn read_inside_leaves_tape_alone() {
    let mut tape = Indexed::from_values(0, &[4, 5, 6]);
    assert_eq!(tape.read_at(&Counter::from_usize(1)).eval(), 5);
    assert_eq!(data(&tape), [4, 5, 6]);
}

#[test]
fn write_then_read_returns_written_value() {
    let mut tape = Indexed::new();
    tape.write_at(&Counter::from_usize(3), Counter::from_usize(77));
    assert_eq!(data(&tape), [0, 0, 0, 77]);
    assert_eq!(tape.read_at(&Counter::from_usize(3)).eval(), 77);
    tape.write_at(&Counter::from_usize(1), Counter::from_usize(5));
    assert_eq!(data(&tape), [0, 5, 0, 77]);
    assert_eq!(tape.read_at(&Counter::from_usize(1)).eval(), 5);
    assert_eq!(tape.read_at(&Counter::from_usize(3)).eval(), 77);
    assert_eq!(tape.len(), 4);
}

#[test]
fn decrement_at_saturates() {
    let mut tape = Indexed::from_values(0, &[1]);
    <Indexed as LLOp<Sub>>::apply_at(&mut tape, &Counter::from_usize(0));
    assert_eq!(data(&tape), [0]);
    <Indexed as LLOp<Sub>>::apply_at(&mut tape, &Counter::from_usize(0));
    assert_eq!(data(&tape), [0]);
    <Indexed as LLOp<Sub>>::apply_at(&mut tape, &Counter::from_usize(2));
    assert_eq!(data(&tape), [0, 0, 0]);
}

#[test]
fn get_reads_under_the_pointer() {
    let mut tape = Indexed::from_values(1, &[3, 8]);
    assert_eq!(tape.get().eval(), 8);
    assert_eq!(data(&tape), [3, 8]);
    move_right(&mut tape);
    assert_eq!(tape.len(), 2);
    assert_eq!(tape.get().eval(), 0);
    assert_eq!(data(&tape), [3, 8, 0]);
}

#[test]
fn move_left_saturates_at_the_left_edge() {
    let mut tape = Indexed::from_values(0, &[1, 2]);
    for _ in 0..10 {
        move_left(&mut tape);
        assert_eq!(index(&tape), 0);
    }
    assert_eq!(data(&tape), [1, 2]);
    move_right(&mut tape);
    move_right(&mut tape);
    move_left(&mut tape);
    assert_eq!(index(&tape), 1);
}

#[test]
fn move_right_grows_lazily() {
    let mut tape = Indexed::new();
    for k in 1..=100usize {
        move_right(&mut tape);
        assert_eq!(index(&tape), k);
        assert_eq!(tape.len(), 0);
    }
    incr(&mut tape);
    assert_eq!(tape.len(), 101);
    assert_eq!(data(&tape)[100], 1);
}

#[test]
fn incr_and_decr_under_the_pointer() {
    let mut tape = Indexed::from_values(1, &[5, 5]);
    incr(&mut tape);
    incr(&mut tape);
    assert_eq!(data(&tape), [5, 7]);
    decr(&mut tape);
    assert_eq!(data(&tape), [5, 6]);
    assert_eq!(index(&tape), 1);
}

#[test]
fn pointer_and_cell_hand_out_copies() {
    let mut tape = Indexed::from_values(2, &[4, 5]);
    assert_eq!(tape.pointer().eval(), 2);
    assert_eq!(tape.cell(1).eval(), 5);
    move_right(&mut tape);
    assert_eq!(tape.pointer().to_usize(), Some(3));
    assert_eq!(tape.cell(0).eval(), 4);
}
