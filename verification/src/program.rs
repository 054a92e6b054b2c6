//! Programs: opcode sequences whose loop brackets pair up, with the
//! partner of every bracket resolved when the program is made.

use vstd::prelude::*;
use crate::instructions::Opcode;

verus! {

/// Scanning rightward from `from` with `depth` inner loops open: the
/// position of the `LoopEnd` that closes the loop we are in, or the length
/// of `ops` where there is none.
pub open spec fn scan_end(ops: Seq<Opcode>, from: nat, depth: nat) -> nat
    decreases ops.len() - from,
{
    if from >= ops.len() {
        ops.len()
    } else if ops[from as int] == Opcode::LoopEnd {
        if depth == 0 {
            from
        } else {
            scan_end(ops, from + 1, (depth - 1) as nat)
        }
    } else if ops[from as int] == Opcode::LoopStart {
        scan_end(ops, from + 1, depth + 1)
    } else {
        scan_end(ops, from + 1, depth)
    }
}

/// Scanning leftward over the positions below `before` with `depth` inner
/// loops open: the position of the `LoopStart` that opens the loop we are
/// in, or -1 where there is none.
pub open spec fn scan_start(ops: Seq<Opcode>, before: nat, depth: nat) -> int
    decreases before,
{
    if before == 0 || before > ops.len() {
        -1
    } else if ops[before - 1] == Opcode::LoopStart {
        if depth == 0 {
            before - 1
        } else {
            scan_start(ops, (before - 1) as nat, (depth - 1) as nat)
        }
    } else if ops[before - 1] == Opcode::LoopEnd {
        scan_start(ops, (before - 1) as nat, depth + 1)
    } else {
        scan_start(ops, (before - 1) as nat, depth)
    }
}

/// The position of the `LoopEnd` that closes the loop opened at `start`,
/// or the length of `ops` where the loop is never closed.
pub open spec fn matching_end(ops: Seq<Opcode>, start: nat) -> nat {
    scan_end(ops, start + 1, 0)
}

/// The position of the `LoopStart` that opens the loop closed at `end`, or
/// -1 where the loop was never opened.
pub open spec fn matching_start(ops: Seq<Opcode>, end: nat) -> int {
    scan_start(ops, end, 0)
}

/// Whether the bracket at position `at`, if there is one, has a partner.
pub open spec fn paired(ops: Seq<Opcode>, at: int) -> bool {
    &&& ops[at] == Opcode::LoopStart ==> matching_end(ops, at as nat) < ops.len()
    &&& ops[at] == Opcode::LoopEnd ==> matching_start(ops, at as nat) >= 0
}

/// Whether every loop that is opened is closed, and every loop that is
/// closed was opened.
pub open spec fn balanced(ops: Seq<Opcode>) -> bool {
    forall|at: int| 0 <= at < ops.len() ==> paired(ops, at)
}

proof fn lemma_scan_end_bounds(ops: Seq<Opcode>, from: nat, depth: nat)
    ensures
        scan_end(ops, from, depth) <= ops.len(),
        from <= ops.len() ==> from <= scan_end(ops, from, depth),
        scan_end(ops, from, depth) < ops.len() ==> ops[scan_end(ops, from, depth) as int]
            == Opcode::LoopEnd,
    decreases ops.len() - from,
{
    if from < ops.len() {
        if ops[from as int] == Opcode::LoopEnd {
            if depth > 0 {
                lemma_scan_end_bounds(ops, from + 1, (depth - 1) as nat);
            }
        } else if ops[from as int] == Opcode::LoopStart {
            lemma_scan_end_bounds(ops, from + 1, depth + 1);
        } else {
            lemma_scan_end_bounds(ops, from + 1, depth);
        }
    }
}

proof fn lemma_scan_start_bounds(ops: Seq<Opcode>, before: nat, depth: nat)
    ensures
        -1 <= scan_start(ops, before, depth) < before || scan_start(ops, before, depth) == -1,
        scan_start(ops, before, depth) >= 0 ==> ops[scan_start(ops, before, depth)]
            == Opcode::LoopStart,
    decreases before,
{
    if !(before == 0 || before > ops.len()) {
        if ops[before - 1] == Opcode::LoopStart {
            if depth > 0 {
                lemma_scan_start_bounds(ops, (before - 1) as nat, (depth - 1) as nat);
            }
        } else if ops[before - 1] == Opcode::LoopEnd {
            lemma_scan_start_bounds(ops, (before - 1) as nat, depth + 1);
        } else {
            lemma_scan_start_bounds(ops, (before - 1) as nat, depth);
        }
    }
}

/// A bracket's partner lies inside the program, on the far side of the
/// bracket, and is a bracket of the other kind.
pub proof fn lemma_partner_position(ops: Seq<Opcode>, at: nat)
    requires
        at < ops.len(),
    ensures
        at < matching_end(ops, at) <= ops.len(),
        matching_end(ops, at) < ops.len() ==> ops[matching_end(ops, at) as int]
            == Opcode::LoopEnd,
        -1 <= matching_start(ops, at) < at,
        matching_start(ops, at) >= 0 ==> ops[matching_start(ops, at)] == Opcode::LoopStart,
{
    lemma_scan_end_bounds(ops, at + 1, 0);
    lemma_scan_start_bounds(ops, at, 0);
}

proof fn lemma_scan_back(ops: Seq<Opcode>, from: nat, depth: nat)
    requires
        from <= ops.len(),
        scan_end(ops, from, depth) < ops.len(),
    ensures
        scan_start(ops, scan_end(ops, from, depth), 0) == scan_start(ops, from, depth),
    decreases ops.len() - from,
{
    if ops[from as int] == Opcode::LoopEnd {
        if depth > 0 {
            lemma_scan_back(ops, from + 1, (depth - 1) as nat);
        }
    } else if ops[from as int] == Opcode::LoopStart {
        lemma_scan_back(ops, from + 1, depth + 1);
    } else {
        lemma_scan_back(ops, from + 1, depth);
    }
}

proof fn lemma_scan_forth(ops: Seq<Opcode>, before: nat, depth: nat)
    requires
        before <= ops.len(),
        scan_start(ops, before, depth) >= 0,
    ensures
        scan_end(ops, (scan_start(ops, before, depth) + 1) as nat, 0) == scan_end(
            ops,
            before,
            depth,
        ),
    decreases before,
{
    let at = (before - 1) as nat;
    if ops[at as int] == Opcode::LoopStart {
        if depth > 0 {
            lemma_scan_forth(ops, at, (depth - 1) as nat);
        }
    } else if ops[at as int] == Opcode::LoopEnd {
        lemma_scan_forth(ops, at, depth + 1);
    } else {
        lemma_scan_forth(ops, at, depth);
    }
}

/// Brackets pair up: the partner of a bracket's partner is the bracket
/// itself.
pub proof fn lemma_partners_pair_up(ops: Seq<Opcode>, at: nat)
    requires
        at < ops.len(),
    ensures
        ops[at as int] == Opcode::LoopStart && matching_end(ops, at) < ops.len()
            ==> matching_start(ops, matching_end(ops, at)) == at,
        ops[at as int] == Opcode::LoopEnd && matching_start(ops, at) >= 0 ==> matching_end(
            ops,
            matching_start(ops, at) as nat,
        ) == at,
{
    if ops[at as int] == Opcode::LoopStart && matching_end(ops, at) < ops.len() {
        lemma_scan_back(ops, at + 1, 0);
    }
    if ops[at as int] == Opcode::LoopEnd && matching_start(ops, at) >= 0 {
        lemma_scan_forth(ops, at, 0);
    }
}

proof fn lemma_scan_end_deeper(ops: Seq<Opcode>, from: nat, depth: nat)
    ensures
        scan_end(ops, from, depth) <= scan_end(ops, from, depth + 1),
        scan_end(ops, from, depth + 1) < ops.len() ==> scan_end(ops, from, depth) < scan_end(
            ops,
            from,
            depth + 1,
        ),
    decreases ops.len() - from,
{
    if from < ops.len() {
        if ops[from as int] == Opcode::LoopEnd {
            if depth == 0 {
                lemma_scan_end_bounds(ops, from + 1, 0);
            } else {
                lemma_scan_end_deeper(ops, from + 1, (depth - 1) as nat);
            }
        } else if ops[from as int] == Opcode::LoopStart {
            lemma_scan_end_deeper(ops, from + 1, depth + 1);
        } else {
            lemma_scan_end_deeper(ops, from + 1, depth);
        }
    }
}

proof fn lemma_scan_end_shallowest(ops: Seq<Opcode>, from: nat, depth: nat)
    requires
        scan_end(ops, from, depth) < ops.len(),
    ensures
        scan_end(ops, from, 0) <= scan_end(ops, from, depth),
    decreases depth,
{
    if depth > 0 {
        lemma_scan_end_deeper(ops, from, (depth - 1) as nat);
        lemma_scan_end_shallowest(ops, from, (depth - 1) as nat);
    }
}

proof fn lemma_scan_end_path(ops: Seq<Opcode>, from: nat, depth: nat, at: nat) -> (inner: nat)
    requires
        from <= at <= scan_end(ops, from, depth),
        scan_end(ops, from, depth) < ops.len(),
    ensures
        scan_end(ops, at, inner) == scan_end(ops, from, depth),
    decreases at - from,
{
    if at == from {
        depth
    } else {
        let prev = (at - 1) as nat;
        let before = lemma_scan_end_path(ops, from, depth, prev);
        if ops[prev as int] == Opcode::LoopEnd {
            (before - 1) as nat
        } else if ops[prev as int] == Opcode::LoopStart {
            before + 1
        } else {
            before
        }
    }
}

proof fn lemma_scan_end_inside(ops: Seq<Opcode>, low: nat, high: nat, from: nat, depth: nat)
    requires
        low + from <= high <= ops.len(),
        scan_end(ops, low + from, depth) < high,
    ensures
        scan_end(ops.subrange(low as int, high as int), from, depth) + low == scan_end(
            ops,
            low + from,
            depth,
        ),
    decreases high - low - from,
{
    let sub = ops.subrange(low as int, high as int);
    lemma_scan_end_bounds(ops, low + from, depth);
    assert(sub[from as int] == ops[(low + from) as int]);
    if ops[(low + from) as int] == Opcode::LoopEnd {
        if depth > 0 {
            lemma_scan_end_inside(ops, low, high, from + 1, (depth - 1) as nat);
        }
    } else if ops[(low + from) as int] == Opcode::LoopStart {
        lemma_scan_end_inside(ops, low, high, from + 1, depth + 1);
    } else {
        lemma_scan_end_inside(ops, low, high, from + 1, depth);
    }
}

proof fn lemma_scan_start_deeper(ops: Seq<Opcode>, before: nat, depth: nat)
    ensures
        scan_start(ops, before, depth + 1) <= scan_start(ops, before, depth),
        scan_start(ops, before, depth + 1) >= 0 ==> scan_start(ops, before, depth + 1)
            < scan_start(ops, before, depth),
    decreases before,
{
    if !(before == 0 || before > ops.len()) {
        let at = (before - 1) as nat;
        if ops[at as int] == Opcode::LoopStart {
            if depth == 0 {
                lemma_scan_start_bounds(ops, at, 0);
            } else {
                lemma_scan_start_deeper(ops, at, (depth - 1) as nat);
            }
        } else if ops[at as int] == Opcode::LoopEnd {
            lemma_scan_start_deeper(ops, at, depth + 1);
        } else {
            lemma_scan_start_deeper(ops, at, depth);
        }
    }
}

proof fn lemma_scan_start_shallowest(ops: Seq<Opcode>, before: nat, depth: nat)
    requires
        scan_start(ops, before, depth) >= 0,
    ensures
        scan_start(ops, before, depth) <= scan_start(ops, before, 0),
    decreases depth,
{
    if depth > 0 {
        lemma_scan_start_deeper(ops, before, (depth - 1) as nat);
        lemma_scan_start_shallowest(ops, before, (depth - 1) as nat);
    }
}

proof fn lemma_scan_start_path(ops: Seq<Opcode>, before: nat, depth: nat, at: nat) -> (inner: nat)
    requires
        before <= ops.len(),
        scan_start(ops, before, depth) < at <= before,
        scan_start(ops, before, depth) >= 0,
    ensures
        scan_start(ops, at, inner) == scan_start(ops, before, depth),
    decreases before - at,
{
    if at == before {
        depth
    } else {
        let after = lemma_scan_start_path(ops, before, depth, at + 1);
        if ops[at as int] == Opcode::LoopStart {
            (after - 1) as nat
        } else if ops[at as int] == Opcode::LoopEnd {
            after + 1
        } else {
            after
        }
    }
}

proof fn lemma_scan_start_inside(ops: Seq<Opcode>, low: nat, high: nat, before: nat, depth: nat)
    requires
        low + before <= high <= ops.len(),
        scan_start(ops, low + before, depth) >= low,
    ensures
        scan_start(ops.subrange(low as int, high as int), before, depth) + low == scan_start(
            ops,
            low + before,
            depth,
        ),
    decreases before,
{
    let sub = ops.subrange(low as int, high as int);
    lemma_scan_start_bounds(ops, low + before, depth);
    let at = (before - 1) as nat;
    assert(sub[at as int] == ops[(low + at) as int]);
    if ops[(low + at) as int] == Opcode::LoopStart {
        if depth > 0 {
            lemma_scan_start_inside(ops, low, high, at, (depth - 1) as nat);
        }
    } else if ops[(low + at) as int] == Opcode::LoopEnd {
        lemma_scan_start_inside(ops, low, high, at, depth + 1);
    } else {
        lemma_scan_start_inside(ops, low, high, at, depth);
    }
}

/// Whether a loop is opened at `start` and closed further on.
pub open spec fn is_loop(ops: Seq<Opcode>, start: nat) -> bool {
    &&& start < ops.len()
    &&& ops[start as int] == Opcode::LoopStart
    &&& matching_end(ops, start) < ops.len()
}

/// The opcodes strictly between the `LoopStart` at `start` and the
/// `LoopEnd` that closes its loop.
pub open spec fn loop_body(ops: Seq<Opcode>, start: nat) -> Seq<Opcode> {
    ops.subrange(start + 1 as int, matching_end(ops, start) as int)
}

/// A bracket in the body of a loop has its partner in that body, and the
/// two are partners as well when the body is taken as a program of its
/// own. In particular the brackets of a loop's body are balanced.
pub proof fn lemma_body_brackets(ops: Seq<Opcode>, start: nat, inner: nat)
    requires
        is_loop(ops, start),
        inner < loop_body(ops, start).len(),
    ensures
        start < matching_end(ops, start),
        loop_body(ops, start)[inner as int] == ops[(start + 1 + inner) as int],
        paired(loop_body(ops, start), inner as int),
        ops[(start + 1 + inner) as int] == Opcode::LoopStart ==> matching_end(
            ops,
            start + 1 + inner,
        ) == matching_end(loop_body(ops, start), inner) + start + 1,
        ops[(start + 1 + inner) as int] == Opcode::LoopEnd ==> matching_start(
            ops,
            start + 1 + inner,
        ) == matching_start(loop_body(ops, start), inner) + start + 1,
{
    let end = matching_end(ops, start);
    let low = start + 1;
    let at = low + inner;
    let body = loop_body(ops, start);
    lemma_partner_position(ops, start);
    lemma_partners_pair_up(ops, start);
    if ops[at as int] == Opcode::LoopStart {
        let depth = lemma_scan_end_path(ops, low, 0, at);
        assert(scan_end(ops, at + 1, depth + 1) == end);
        lemma_scan_end_deeper(ops, at + 1, depth);
        lemma_scan_end_shallowest(ops, at + 1, depth);
        lemma_scan_end_inside(ops, low, end, inner + 1, 0);
    }
    if ops[at as int] == Opcode::LoopEnd {
        let depth = lemma_scan_start_path(ops, end, 0, at + 1);
        assert(scan_start(ops, at, depth + 1) == start);
        lemma_scan_start_deeper(ops, at, depth);
        lemma_scan_start_shallowest(ops, at, depth);
        lemma_scan_start_inside(ops, low, end, inner, 0);
    }
}

/// The position of the `LoopEnd` that closes the loop opened at `start`.
fn find_end(ops: &Vec<Opcode>, start: usize) -> (end: usize)
    requires
        start < ops@.len(),
    ensures
        end == matching_end(ops@, start as nat),
{
    let n = ops.len();
    let mut at: usize = start + 1;
    let mut depth: usize = 0;
    while at < n
        invariant
            n == ops@.len(),
            start < at <= n,
            depth <= at - start - 1,
            scan_end(ops@, at as nat, depth as nat) == matching_end(ops@, start as nat),
        decreases ops@.len() - at,
    {
        match ops[at] {
            Opcode::LoopEnd => {
                if depth == 0 {
                    return at;
                }
                depth -= 1;
            },
            Opcode::LoopStart => {
                depth += 1;
            },
            _ => {},
        }
        at += 1;
    }
    at
}

/// The position of the `LoopStart` that opens the loop closed at `end`.
fn find_start(ops: &Vec<Opcode>, end: usize) -> (start: Option<usize>)
    requires
        end < ops@.len(),
    ensures
        match start {
            Some(at) => at == matching_start(ops@, end as nat),
            None => matching_start(ops@, end as nat) == -1,
        },
{
    let mut before: usize = end;
    let mut depth: usize = 0;
    while before > 0
        invariant
            before <= end < ops@.len(),
            depth <= end - before,
            scan_start(ops@, before as nat, depth as nat) == matching_start(ops@, end as nat),
        decreases before,
    {
        match ops[before - 1] {
            Opcode::LoopStart => {
                if depth == 0 {
                    return Some(before - 1);
                }
                depth -= 1;
            },
            Opcode::LoopEnd => {
                depth += 1;
            },
            _ => {},
        }
        before -= 1;
    }
    None
}

/// The opcode that a byte of source text stands for.
pub open spec fn opcode_of(byte: u8) -> Option<Opcode> {
    if byte == 0x2b {
        Some(Opcode::IncrCell)
    } else if byte == 0x2d {
        Some(Opcode::DecrCell)
    } else if byte == 0x3e {
        Some(Opcode::MoveRight)
    } else if byte == 0x3c {
        Some(Opcode::MoveLeft)
    } else if byte == 0x2e {
        Some(Opcode::Print)
    } else if byte == 0x5b {
        Some(Opcode::LoopStart)
    } else if byte == 0x5d {
        Some(Opcode::LoopEnd)
    } else {
        None
    }
}

/// Whether every byte of `source` stands for an opcode.
pub open spec fn is_source(source: Seq<u8>) -> bool {
    forall|k: int| 0 <= k < source.len() ==> opcode_of(source[k]) is Some
}

/// The opcodes that the bytes of `source` stand for, one for one.
pub open spec fn opcodes_of(source: Seq<u8>) -> Seq<Opcode> {
    Seq::new(source.len(), |k: int| opcode_of(source[k]).unwrap())
}

/// The opcode that `byte` stands for: `+ - > < . [ ]` in source text.
pub fn opcode_from_byte(byte: u8) -> (op: Option<Opcode>)
    ensures
        op == opcode_of(byte),
{
    if byte == 0x2b {
        Some(Opcode::IncrCell)
    } else if byte == 0x2d {
        Some(Opcode::DecrCell)
    } else if byte == 0x3e {
        Some(Opcode::MoveRight)
    } else if byte == 0x3c {
        Some(Opcode::MoveLeft)
    } else if byte == 0x2e {
        Some(Opcode::Print)
    } else if byte == 0x5b {
        Some(Opcode::LoopStart)
    } else if byte == 0x5d {
        Some(Opcode::LoopEnd)
    } else {
        None
    }
}

/// A program: opcodes whose loop brackets are balanced, and for every
/// bracket the position of its partner.
pub struct Program {
    ops: Vec<Opcode>,
    jumps: Vec<usize>,
}

impl View for Program {
    type V = Seq<Opcode>;

    closed spec fn view(&self) -> Seq<Opcode> {
        self.ops@
    }
}

/// Whether `jumps` holds the partner of the bracket at `at`.
spec fn resolved(ops: Seq<Opcode>, jumps: Seq<usize>, at: int) -> bool {
    &&& ops[at] == Opcode::LoopStart ==> jumps[at] == matching_end(ops, at as nat)
    &&& ops[at] == Opcode::LoopEnd ==> jumps[at] == matching_start(ops, at as nat)
}

impl Program {
    #[verifier::type_invariant]
    spec fn well_formed(self) -> bool {
        &&& self.jumps@.len() == self.ops@.len()
        &&& balanced(self.ops@)
        &&& forall|at: int| 0 <= at < self.ops@.len() ==> resolved(self.ops@, self.jumps@, at)
    }

    /// Makes a program of `ops`, resolving every bracket's partner. There
    /// is a program exactly when the brackets are balanced.
    pub fn new(ops: Vec<Opcode>) -> (program: Option<Program>)
        ensures
            program is Some <==> balanced(ops@),
            program is Some ==> program->Some_0@ == ops@,
    {
        let mut jumps: Vec<usize> = Vec::new();
        let mut at: usize = 0;
        while at < ops.len()
            invariant
                at <= ops@.len(),
                jumps@.len() == at,
                forall|k: int| 0 <= k < at ==> paired(ops@, k),
                forall|k: int| 0 <= k < at ==> resolved(ops@, jumps@, k),
            decreases ops@.len() - at,
        {
            let ghost earlier = jumps@;
            let mut partner: usize = 0;
            match ops[at] {
                Opcode::LoopStart => {
                    partner = find_end(&ops, at);
                    if partner >= ops.len() {
                        assert(!paired(ops@, at as int));
                        return None;
                    }
                },
                Opcode::LoopEnd => {
                    match find_start(&ops, at) {
                        Some(start) => {
                            partner = start;
                        },
                        None => {
                            assert(!paired(ops@, at as int));
                            return None;
                        },
                    }
                },
                _ => {},
            }
            jumps.push(partner);
            assert forall|k: int| 0 <= k < at + 1 implies resolved(ops@, jumps@, k) by {
                if k < at {
                    assert(resolved(ops@, earlier, k));
                }
            }
            at += 1;
        }
        Some(Program { ops, jumps })
    }

    /// Makes a program of source text. There is a program exactly when
    /// every byte stands for an opcode and the brackets are balanced.
    pub fn parse(source: &[u8]) -> (program: Option<Program>)
        ensures
            program is Some <==> is_source(source@) && balanced(opcodes_of(source@)),
            program is Some ==> program->Some_0@ == opcodes_of(source@),
    {
        let mut ops: Vec<Opcode> = Vec::new();
        let mut at: usize = 0;
        while at < source.len()
            invariant
                at <= source@.len(),
                ops@.len() == at,
                forall|k: int| 0 <= k < at ==> opcode_of(source@[k]) == Some(#[trigger] ops@[k]),
            decreases source@.len() - at,
        {
            match opcode_from_byte(source[at]) {
                Some(op) => {
                    ops.push(op);
                },
                None => {
                    return None;
                },
            }
            at += 1;
        }
        assert forall|k: int| 0 <= k < source@.len() implies opcode_of(source@[k]) is Some by {
            assert(opcode_of(source@[k]) == Some(ops@[k]));
        }
        assert(ops@ =~= opcodes_of(source@));
        Program::new(ops)
    }

    /// The number of opcodes.
    pub fn len(&self) -> (n: usize)
        ensures
            n == self@.len(),
    {
        self.ops.len()
    }

    /// The opcode at position `at`.
    pub fn opcode(&self, at: usize) -> (op: Opcode)
        requires
            at < self@.len(),
        ensures
            op == self@[at as int],
    {
        self.ops[at]
    }

    /// The position of the partner of the bracket at position `at`.
    pub fn partner(&self, at: usize) -> (to: usize)
        requires
            at < self@.len(),
            self@[at as int] == Opcode::LoopStart || self@[at as int] == Opcode::LoopEnd,
        ensures
            to < self@.len(),
            self@[at as int] == Opcode::LoopStart ==> to == matching_end(self@, at as nat),
            self@[at as int] == Opcode::LoopEnd ==> to == matching_start(self@, at as nat),
    {
        proof {
            use_type_invariant(self);
            assert(paired(self.ops@, at as int));
            assert(resolved(self.ops@, self.jumps@, at as int));
            lemma_partner_position(self.ops@, at as nat);
        }
        self.jumps[at]
    }

    /// The opcodes, in order. Their brackets are balanced.
    pub fn opcodes(&self) -> (ops: &Vec<Opcode>)
        ensures
            ops@ == self@,
            balanced(ops@),
    {
        proof {
            use_type_invariant(self);
        }
        &self.ops
    }
}

} // verus!
