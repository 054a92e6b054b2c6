//! The tape: a rightward-growing row of counters with a pointer into it.
//!
//! Reading or writing a cell past the end first extends the row with zero
//! cells up to and including that cell. The pointer itself may run ahead of
//! the row; the row catches up on the next access. Neither the pointer nor
//! the row has a bound of its own: the tape ends where memory does.

use vstd::prelude::*;
use vstd::utf8::{decode_utf8, encode_utf8, valid_utf8, encode_utf8_decode_utf8};
use crate::numbers::{Counter, Number, Operation};
use crate::operators::{Add, Sub};

verus! {

/// The mathematical content of a tape: the pointer and the cell values.
pub struct Tape {
    pub index: nat,
    pub data: Seq<nat>,
}

/// `data`, extended with zero cells where needed so that cell `i` exists.
pub open spec fn grown(data: Seq<nat>, i: nat) -> Seq<nat> {
    if i < data.len() {
        data
    } else {
        data + Seq::new((i + 1 - data.len()) as nat, |k: int| 0nat)
    }
}

impl Tape {
    /// The tape with no cells and the pointer at the left edge.
    pub open spec fn empty() -> Tape {
        Tape { index: 0, data: Seq::empty() }
    }

    /// The value of cell `i`; a cell past the end reads as zero.
    pub open spec fn value_at(self, i: nat) -> nat {
        if i < self.data.len() {
            self.data[i as int]
        } else {
            0
        }
    }

    /// The tape after cell `i` has been accessed.
    pub open spec fn touch(self, i: nat) -> Tape {
        Tape { index: self.index, data: grown(self.data, i) }
    }

    /// The tape after `value` has been stored in cell `i`.
    pub open spec fn write_at(self, i: nat, value: nat) -> Tape {
        Tape { index: self.index, data: grown(self.data, i).update(i as int, value) }
    }

    /// The tape after the step `Op` has been applied to cell `i`.
    pub open spec fn apply_at<Op: Operation>(self, i: nat) -> Tape {
        self.write_at(i, Op::apply(self.value_at(i)))
    }

    /// The value of the cell under the pointer.
    pub open spec fn current(self) -> nat {
        self.value_at(self.index)
    }

    /// The tape after the step `Op` has been applied to the pointer.
    pub open spec fn shift<Op: Operation>(self) -> Tape {
        Tape { index: Op::apply(self.index), data: self.data }
    }

    /// The tape after `value` has been appended as a new last cell.
    pub open spec fn push(self, value: nat) -> Tape {
        Tape { index: self.index, data: self.data.push(value) }
    }

    /// Whether every cell value fits a machine integer.
    pub open spec fn fits(self) -> bool {
        forall|k: int| 0 <= k < self.data.len() ==> self.data[k] <= usize::MAX
    }
}

/// Whether every value is a byte.
pub open spec fn all_bytes(values: Seq<nat>) -> bool {
    forall|k: int| 0 <= k < values.len() ==> values[k] <= 255
}

/// The values as bytes, one for one and in order.
pub open spec fn as_bytes(values: Seq<nat>) -> Seq<u8> {
    Seq::new(values.len(), |k: int| values[k] as u8)
}

/// Whether the values can be read as text: each is a byte, and the bytes
/// are well-formed UTF-8.
pub open spec fn is_text(values: Seq<nat>) -> bool {
    all_bytes(values) && valid_utf8(as_bytes(values))
}

/// The values of a row of counters.
pub open spec fn cell_values(cells: Seq<Counter>) -> Seq<nat> {
    Seq::new(cells.len(), |k: int| cells[k]@)
}

/// A value that is not a byte, or bytes that are not well-formed text.
#[derive(Debug)]
pub struct InvalidCharError;

/// The error of `String::from_utf8`. Nothing is said of what it holds.
#[verifier::external_type_specification]
#[verifier::external_body]
pub struct ExFromUtf8Error(std::string::FromUtf8Error);

/// `String::from_utf8` succeeds exactly on well-formed UTF-8, and the string
/// it then returns is made of the very bytes it was given.
pub assume_specification[ String::from_utf8 ](vec: Vec<u8>) -> (text: Result<
    String,
    std::string::FromUtf8Error,
>)
    ensures
        text is Ok <==> valid_utf8(vec@),
        text is Ok ==> encode_utf8(text->Ok_0@) == vec@,
;

/// Extends `data` with zero cells until cell `idx` exists, and returns its
/// position.
fn reach(data: &mut Vec<Counter>, idx: &Counter) -> (at: usize)
    ensures
        at == idx@,
        at < final(data)@.len(),
        cell_values(final(data)@) == grown(cell_values(old(data)@), idx@),
{
    let target = idx.to_usize();
    loop
        invariant
            target == if idx@ <= usize::MAX { Some(idx@ as usize) } else { None },
            old(data)@.len() <= data@.len(),
            data@.len() == old(data)@.len() || data@.len() <= idx@ + 1,
            forall|k: int| 0 <= k < old(data)@.len() ==> data@[k] == old(data)@[k],
            forall|k: int| old(data)@.len() <= k < data@.len() ==> data@[k]@ == 0,
        decreases idx@ + 1 - data@.len(),
    {
        let len = data.len();
        if let Some(at) = target {
            if at < len {
                assert(cell_values(data@) =~= grown(cell_values(old(data)@), idx@));
                return at;
            }
        }
        data.push(Counter::zero());
    }
}

/// Reads cell `idx` of `data`, extending it so that the cell exists.
fn read_cell(data: &mut Vec<Counter>, idx: &Counter) -> (value: Counter)
    ensures
        value@ == grown(cell_values(old(data)@), idx@)[idx@ as int],
        cell_values(final(data)@) == grown(cell_values(old(data)@), idx@),
{
    let at = reach(data, idx);
    assert(cell_values(data@)[at as int] == data@[at as int]@);
    data[at].clone()
}

/// Applies the step `Op` to cell `idx` of `data`, extending it so that the
/// cell exists.
fn step_cell<Op: Operation>(data: &mut Vec<Counter>, idx: &Counter)
    ensures
        cell_values(final(data)@) == grown(cell_values(old(data)@), idx@).update(
            idx@ as int,
            Op::apply(grown(cell_values(old(data)@), idx@)[idx@ as int]),
        ),
{
    let at = reach(data, idx);
    assert(cell_values(data@)[at as int] == data@[at as int]@);
    let mut value = data[at].clone();
    Op::exec(&mut value);
    data.set(at, value);
    assert(cell_values(data@) =~= grown(cell_values(old(data)@), idx@).update(
        idx@ as int,
        Op::apply(grown(cell_values(old(data)@), idx@)[idx@ as int]),
    ));
}

/// A tape: cells and a pointer.
pub struct Indexed {
    index: Counter,
    data: Vec<Counter>,
}

impl View for Indexed {
    type V = Tape;

    closed spec fn view(&self) -> Tape {
        Tape { index: self.index@, data: cell_values(self.data@) }
    }
}

impl Indexed {
    /// The tape with no cells and the pointer at the left edge.
    pub fn new() -> (tape: Indexed)
        ensures
            tape@ == Tape::empty(),
    {
        let tape = Indexed { index: Counter::zero(), data: Vec::new() };
        assert(tape@.data =~= Seq::empty());
        tape
    }

    /// The tape with the given pointer and cell values.
    pub fn from_values(index: usize, values: &[usize]) -> (tape: Indexed)
        ensures
            tape@.index == index,
            tape@.data == Seq::new(values@.len(), |k: int| values@[k] as nat),
    {
        let mut data: Vec<Counter> = Vec::new();
        let mut i: usize = 0;
        while i < values.len()
            invariant
                i <= values@.len(),
                data@.len() == i,
                forall|k: int| 0 <= k < i ==> data@[k]@ == values@[k],
            decreases values@.len() - i,
        {
            data.push(Counter::from_usize(values[i]));
            i += 1;
        }
        let tape = Indexed { index: Counter::from_usize(index), data };
        assert(tape@.data =~= Seq::new(values@.len(), |k: int| values@[k] as nat));
        tape
    }

    /// Stores `value` in cell `idx`, extending the tape so that the cell
    /// exists.
    pub fn write_at(&mut self, idx: &Counter, value: Counter)
        ensures
            final(self)@ == old(self)@.write_at(idx@, value@),
    {
        let at = reach(&mut self.data, idx);
        self.data.set(at, value);
        assert(self@.data =~= old(self)@.write_at(idx@, value@).data);
    }

    /// A copy of the pointer.
    pub fn pointer(&self) -> (index: Counter)
        ensures
            index@ == self@.index,
    {
        self.index.clone()
    }

    /// A copy of cell `at`, which exists.
    pub fn cell(&self, at: usize) -> (value: Counter)
        requires
            at < self@.data.len(),
        ensures
            value@ == self@.data[at as int],
    {
        self.data[at].clone()
    }
}

/// Reading any cell.
pub trait Index: View<V = Tape> {
    /// Reads cell `idx`, extending the tape so that the cell exists.
    fn read_at(&mut self, idx: &Counter) -> (value: Counter)
        ensures
            value@ == old(self)@.value_at(idx@),
            final(self)@ == old(self)@.touch(idx@),
    ;
}

/// Stepping any cell.
pub trait LLOp<Op: Operation>: View<V = Tape> {
    /// Applies the step `Op` to cell `idx`, extending the tape so that the
    /// cell exists.
    fn apply_at(&mut self, idx: &Counter)
        ensures
            final(self)@ == old(self)@.apply_at::<Op>(idx@),
    ;
}

/// Reading the cell under the pointer.
pub trait Get: View<V = Tape> {
    /// Reads the cell under the pointer, extending the tape so that the
    /// cell exists.
    fn get(&mut self) -> (value: Counter)
        ensures
            value@ == old(self)@.current(),
            final(self)@ == old(self)@.touch(old(self)@.index),
    ;
}

/// The number of cells.
pub trait Len: View<V = Tape> {
    /// The number of cells that exist.
    fn len(&self) -> (n: usize)
        ensures
            n == self@.data.len(),
    ;
}

/// Stepping the cell under the pointer.
pub trait VecOp<Op: Operation>: View<V = Tape> {
    /// Applies the step `Op` to the cell under the pointer, extending the
    /// tape so that the cell exists.
    fn vec_op(&mut self)
        ensures
            final(self)@ == old(self)@.apply_at::<Op>(old(self)@.index),
    ;
}

/// Stepping the pointer.
pub trait IndexOp<Op: Operation>: View<V = Tape> {
    /// Applies the step `Op` to the pointer. The cells are left as they
    /// are: none is added until the next access.
    fn index_op(&mut self)
        ensures
            final(self)@ == old(self)@.shift::<Op>(),
    ;
}

/// Appending a cell.
pub trait Push: View<V = Tape> {
    /// Appends `value` as a new last cell.
    fn push(&mut self, value: Counter)
        ensures
            final(self)@ == old(self)@.push(value@),
    ;
}

/// Handing the cell values out.
pub trait ToVec: View<V = Tape> {
    /// The cell values, in order.
    fn to_vec(&self) -> (values: Vec<usize>)
        requires
            self@.fits(),
        ensures
            values@.len() == self@.data.len(),
            forall|k: int| 0 <= k < values@.len() ==> values@[k] == self@.data[k],
    ;

    /// The cell values read as text. This fails as a whole when a value is
    /// not a byte or the bytes are not well-formed UTF-8; otherwise the
    /// text consists of exactly those bytes.
    fn to_string(&self) -> (text: Result<String, InvalidCharError>)
        ensures
            text is Ok <==> is_text(self@.data),
            text is Ok ==> encode_utf8(text->Ok_0@) == as_bytes(self@.data),
            text is Ok ==> text->Ok_0@ == decode_utf8(as_bytes(self@.data)),
    ;
}

/// Observing a tape.
pub trait Debug: View<V = Tape> {
    /// The position of the pointer.
    fn index(&self) -> (n: usize)
        requires
            self@.index <= usize::MAX,
        ensures
            n == self@.index,
    ;

    /// The cell values, in order.
    fn data(&self) -> (values: Vec<usize>)
        requires
            self@.fits(),
        ensures
            values@.len() == self@.data.len(),
            forall|k: int| 0 <= k < values@.len() ==> values@[k] == self@.data[k],
    ;

    /// The cell values read as text, as [`ToVec::to_string`] gives it.
    fn string(&self) -> (text: Result<String, InvalidCharError>)
        ensures
            text is Ok <==> is_text(self@.data),
            text is Ok ==> encode_utf8(text->Ok_0@) == as_bytes(self@.data),
            text is Ok ==> text->Ok_0@ == decode_utf8(as_bytes(self@.data)),
    ;
}

impl Index for Indexed {
    fn read_at(&mut self, idx: &Counter) -> (value: Counter) {
        read_cell(&mut self.data, idx)
    }
}

impl<Op: Operation> LLOp<Op> for Indexed {
    fn apply_at(&mut self, idx: &Counter) {
        step_cell::<Op>(&mut self.data, idx);
    }
}

impl Get for Indexed {
    fn get(&mut self) -> (value: Counter) {
        read_cell(&mut self.data, &self.index)
    }
}

impl Len for Indexed {
    fn len(&self) -> (n: usize) {
        self.data.len()
    }
}

impl<Op: Operation> VecOp<Op> for Indexed {
    fn vec_op(&mut self) {
        step_cell::<Op>(&mut self.data, &self.index);
    }
}

impl<Op: Operation> IndexOp<Op> for Indexed {
    fn index_op(&mut self) {
        Op::exec(&mut self.index);
    }
}

impl Push for Indexed {
    fn push(&mut self, value: Counter) {
        self.data.push(value);
        assert(self@.data =~= old(self)@.push(value@).data);
    }
}

impl ToVec for Indexed {
    fn to_vec(&self) -> (values: Vec<usize>) {
        let mut values: Vec<usize> = Vec::new();
        let mut i: usize = 0;
        while i < self.data.len()
            invariant
                self@.fits(),
                i <= self.data@.len(),
                values@.len() == i,
                forall|k: int| 0 <= k < i ==> values@[k] == self@.data[k],
            decreases self.data@.len() - i,
        {
            assert(self@.data[i as int] == self.data@[i as int]@);
            values.push(self.data[i].eval());
            i += 1;
        }
        values
    }

    fn to_string(&self) -> (text: Result<String, InvalidCharError>) {
        let mut bytes: Vec<u8> = Vec::new();
        let mut i: usize = 0;
        while i < self.data.len()
            invariant
                i <= self.data@.len(),
                bytes@.len() == i,
                forall|k: int| 0 <= k < i ==> #[trigger] self@.data[k] <= 255,
                forall|k: int| 0 <= k < i ==> #[trigger] bytes@[k] == self@.data[k],
            decreases self.data@.len() - i,
        {
            assert(self@.data[i as int] == self.data@[i as int]@);
            let value = self.data[i].to_usize();
            if value.is_some() && value.unwrap() <= 255 {
                bytes.push(value.unwrap() as u8);
            } else {
                assert(!all_bytes(self@.data));
                return Err(InvalidCharError);
            }
            i += 1;
        }
        assert(bytes@ =~= as_bytes(self@.data));
        match String::from_utf8(bytes) {
            Ok(text) => {
                proof {
                    encode_utf8_decode_utf8(text@);
                }
                Ok(text)
            },
            Err(_) => Err(InvalidCharError),
        }
    }
}

impl Debug for Indexed {
    fn index(&self) -> (n: usize) {
        self.index.eval()
    }

    fn data(&self) -> (values: Vec<usize>) {
        self.to_vec()
    }

    fn string(&self) -> (text: Result<String, InvalidCharError>) {
        self.to_string()
    }
}

/// The tape after the step `Op` has been applied to the pointer `k` times.
pub open spec fn shift_times<Op: Operation>(tape: Tape, k: nat) -> Tape
    decreases k,
{
    if k == 0 {
        tape
    } else {
        shift_times::<Op>(tape, (k - 1) as nat).shift::<Op>()
    }
}

/// Accessing a cell at or past the end makes the tape exactly long enough
/// to hold it, and the cell reads as zero. A cell that has been written
/// reads as the value written, and every other cell reads as before.
pub proof fn tape_access_laws(tape: Tape, i: nat, j: nat, value: nat)
    ensures
        i >= tape.data.len() ==> tape.touch(i).data.len() == i + 1 && tape.value_at(i) == 0,
        i < tape.data.len() ==> tape.touch(i) == tape,
        tape.touch(i).value_at(j) == tape.value_at(j),
        tape.touch(i).data.len() >= tape.data.len(),
        i < tape.touch(i).data.len(),
        i < tape.write_at(i, value).data.len(),
        tape.write_at(i, value).value_at(i) == value,
        tape.write_at(i, value).touch(i).value_at(i) == value,
        j != i ==> tape.write_at(i, value).value_at(j) == tape.value_at(j),
{
}

/// Moving left from the left edge stays at the left edge, however often it
/// is done; moving right `k` times moves the pointer `k` cells to the
/// right, so every position is reached. Neither touches the cells.
pub proof fn pointer_move_laws(tape: Tape, k: nat)
    ensures
        tape.index == 0 ==> shift_times::<Sub>(tape, k).index == 0,
        shift_times::<Add>(tape, k).index == tape.index + k,
        shift_times::<Sub>(tape, k).data == tape.data,
        shift_times::<Add>(tape, k).data == tape.data,
    decreases k,
{
    if k > 0 {
        pointer_move_laws(tape, (k - 1) as nat);
    }
}

} // verus!
