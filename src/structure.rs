use vstd::prelude::*;
use crate::opcode::{OpCode, Instruction, flatten, head_opcode};

verus! {

/// Why an opcode sequence cannot be structured; each carries a position in
/// the opcode sequence.
#[derive(Clone, Copy, Debug, PartialEq, Eq, Structural)]
pub enum ParseError {
    /// A `LoopEnd` with no open loop before it.
    UnmatchedLoopEnd(usize),
    /// The outermost `LoopBegin` that is never closed.
    UnmatchedLoopStart(usize),
}

/// How an opcode changes the nesting depth.
pub open spec fn delta(o: OpCode) -> int {
    match o {
        OpCode::LoopBegin => 1,
        OpCode::LoopEnd => -1,
        _ => 0,
    }
}

/// The nesting depth after a sequence of opcodes: opened loops minus closed ones.
pub open spec fn balance(s: Seq<OpCode>) -> int
    decreases s.len(),
{
    if s.len() == 0 {
        0
    } else {
        balance(s.drop_last()) + delta(s.last())
    }
}

/// No prefix closes more loops than it opens.
pub open spec fn never_below(s: Seq<OpCode>) -> bool {
    forall|k: int| 0 <= k <= s.len() ==> #[trigger] balance(s.take(k)) >= 0
}

/// Every `LoopBegin` is matched by a later `LoopEnd` and the other way round.
pub open spec fn well_bracketed(s: Seq<OpCode>) -> bool {
    balance(s) == 0 && never_below(s)
}

/// `s[i]` is the first `LoopEnd` that closes a loop that was never opened.
pub open spec fn unmatched_end_at(s: Seq<OpCode>, i: int) -> bool {
    &&& 0 <= i < s.len()
    &&& never_below(s.take(i))
    &&& balance(s.take(i + 1)) < 0
}

/// `s` never closes more than it opened, and `s[i]` opens the last
/// outermost loop, which stays open to the end.
pub open spec fn unmatched_start_at(s: Seq<OpCode>, i: int) -> bool {
    &&& never_below(s)
    &&& 0 <= i < s.len()
    &&& s[i] == OpCode::LoopBegin
    &&& balance(s.take(i)) == 0
    &&& forall|k: int| i < k <= s.len() ==> #[trigger] balance(s.take(k)) > 0
}

/// Depth is additive over concatenation.
pub proof fn lemma_balance_append(a: Seq<OpCode>, b: Seq<OpCode>)
    ensures
        balance(a + b) == balance(a) + balance(b),
    decreases b.len(),
{
    if b.len() == 0 {
        assert(a + b == a);
    } else {
        assert((a + b).drop_last() == a + b.drop_last());
        assert((a + b).last() == b.last());
        lemma_balance_append(a, b.drop_last());
    }
}

proof fn lemma_balance_take(s: Seq<OpCode>, k: int)
    requires
        0 <= k < s.len(),
    ensures
        balance(s.take(k + 1)) == balance(s.take(k)) + delta(s[k]),
{
    assert(s.take(k + 1).drop_last() == s.take(k));
}

proof fn lemma_balance_span(s: Seq<OpCode>, a: int, j: int)
    requires
        0 <= a <= j <= s.len(),
    ensures
        balance(s.take(j)) == balance(s.take(a)) + balance(s.subrange(a, j)),
{
    assert(s.take(j) == s.take(a) + s.subrange(a, j));
    lemma_balance_append(s.take(a), s.subrange(a, j));
}

proof fn lemma_never_below_append(a: Seq<OpCode>, b: Seq<OpCode>)
    requires
        never_below(a),
        forall|k: int| 0 <= k <= b.len() ==> balance(a) + #[trigger] balance(b.take(k)) >= 0,
    ensures
        never_below(a + b),
{
    assert forall|k: int| 0 <= k <= (a + b).len() implies #[trigger] balance((a + b).take(k)) >= 0 by {
        if k <= a.len() {
            assert((a + b).take(k) == a.take(k));
        } else {
            assert((a + b).take(k) == a + b.take(k - a.len()));
            lemma_balance_append(a, b.take(k - a.len()));
        }
    };
}

proof fn lemma_single(o: OpCode)
    ensures
        balance(seq![o]) == delta(o),
        forall|k: int| 0 <= k <= 1 ==> #[trigger] balance(seq![o].take(k)) == if k == 0 { 0 } else { delta(o) },
{
    let one = seq![o];
    assert(one.drop_last() == Seq::<OpCode>::empty());
    assert(one.last() == o);
    assert(balance(Seq::<OpCode>::empty()) == 0);
    assert(balance(one) == delta(o));
    assert(one.take(0) == Seq::<OpCode>::empty());
    assert(one.take(1) == one);
}

/// Flattening any instruction sequence gives a well-bracketed opcode
/// sequence, so every program tree can be written back as opcodes and
/// structured again.
pub proof fn lemma_flatten_well_bracketed(p: Seq<Instruction>)
    ensures
        well_bracketed(flatten(p)),
    decreases p,
{
    if p.len() == 0 {
        assert(Seq::<OpCode>::empty().take(0) == Seq::<OpCode>::empty());
    } else {
        let front = flatten(p.drop_last());
        lemma_flatten_well_bracketed(p.drop_last());
        let tail = flatten(p).skip(front.len() as int);
        assert(flatten(p) == front + tail);
        match p.last() {
            Instruction::Loop(body) => {
                let inner = flatten(body@);
                lemma_flatten_well_bracketed(body@);
                let open = seq![OpCode::LoopBegin];
                let close = seq![OpCode::LoopEnd];
                assert(tail == open + inner + close);
                lemma_single(OpCode::LoopBegin);
                lemma_single(OpCode::LoopEnd);
                assert(never_below(open));
                lemma_never_below_append(open, inner);
                lemma_balance_append(open, inner);
                assert forall|k: int| 0 <= k <= close.len() implies balance(open + inner) + #[trigger] balance(close.take(k)) >= 0 by {};
                lemma_never_below_append(open + inner, close);
                lemma_balance_append(open + inner, close);
            },
            _ => {
                lemma_single(head_opcode(p.last()));
                assert(tail == seq![head_opcode(p.last())]);
                assert(never_below(tail));
            },
        }
        assert forall|k: int| 0 <= k <= tail.len() implies balance(front) + #[trigger] balance(tail.take(k)) >= 0 by {};
        lemma_never_below_append(front, tail);
        lemma_balance_append(front, tail);
    }
}

/// Groups a flat opcode sequence into instructions, each bracket pair
/// becoming a loop whose body is what stands between the brackets.
pub fn parse_loops(opcodes: Vec<OpCode>) -> (r: Result<Vec<Instruction>, ParseError>)
    ensures
        r is Ok <==> well_bracketed(opcodes@),
        match r {
            Ok(p) => flatten(p@) == opcodes@,
            Err(ParseError::UnmatchedLoopEnd(i)) => unmatched_end_at(opcodes@, i as int),
            Err(ParseError::UnmatchedLoopStart(i)) => unmatched_start_at(opcodes@, i as int),
        },
    decreases opcodes@.len(),
{
    let ghost s = opcodes@;
    let mut prog: Vec<Instruction> = Vec::new();
    let mut depth: usize = 0;
    let mut begin: usize = 0;
    let mut i: usize = 0;
    assert(s.take(0) == Seq::<OpCode>::empty());
    while i < opcodes.len()
        invariant
            s == opcodes@,
            i <= s.len(),
            depth <= i,
            balance(s.take(i as int)) == depth,
            never_below(s.take(i as int)),
            depth == 0 ==> flatten(prog@) == s.take(i as int),
            depth > 0 ==> {
                &&& begin < i
                &&& s[begin as int] == OpCode::LoopBegin
                &&& balance(s.take(begin as int)) == 0
                &&& flatten(prog@) == s.take(begin as int)
                &&& forall|k: int| begin < k <= i ==> #[trigger] balance(s.take(k)) > 0
            },
        decreases s.len() - i,
    {
        let op = opcodes[i];
        proof {
            lemma_balance_take(s, i as int);
            if depth > 0 || op != OpCode::LoopEnd {
                assert forall|k: int| 0 <= k <= i + 1 implies #[trigger] balance(s.take(i + 1).take(k)) >= 0 by {
                    if k <= i {
                        assert(s.take(i + 1).take(k) == s.take(i as int).take(k));
                    } else {
                        assert(s.take(i + 1).take(k) == s.take(i + 1));
                    }
                };
            }
        }
        if depth == 0 {
            assert(flatten(prog@) == s.take(i as int));
            match op {
                OpCode::LoopBegin => {
                    begin = i;
                    depth = 1;
                },
                OpCode::LoopEnd => {
                    return Err(ParseError::UnmatchedLoopEnd(i));
                },
                _ => {
                    let ins = match op {
                        OpCode::IncrementPointer => Instruction::IncrementPointer,
                        OpCode::DecrementPointer => Instruction::DecrementPointer,
                        OpCode::Increment => Instruction::Increment,
                        OpCode::Decrement => Instruction::Decrement,
                        OpCode::Write => Instruction::Write,
                        _ => Instruction::Read,
                    };
                    let ghost before = prog@;
                    prog.push(ins);
                    assert(prog@.drop_last() == before);
                    assert(s.take(i + 1) == s.take(i as int).push(op));
                },
            }
        } else {
            match op {
                OpCode::LoopBegin => {
                    depth = depth + 1;
                },
                OpCode::LoopEnd => {
                    depth = depth - 1;
                    if depth == 0 {
                        let mut body_ops: Vec<OpCode> = Vec::new();
                        let mut j: usize = begin + 1;
                        while j < i
                            invariant
                                s == opcodes@,
                                begin < i < s.len(),
                                begin + 1 <= j <= i,
                                body_ops@ == s.subrange(begin + 1, j as int),
                            decreases i - j,
                        {
                            body_ops.push(opcodes[j]);
                            assert(s.subrange(begin + 1, j + 1) == s.subrange(begin + 1, j as int).push(s[j as int]));
                            j = j + 1;
                        }
                        let ghost inner = body_ops@;
                        proof {
                            lemma_balance_take(s, begin as int);
                            lemma_balance_span(s, begin + 1, i as int);
                            assert forall|k: int| 0 <= k <= inner.len() implies #[trigger] balance(inner.take(k)) >= 0 by {
                                lemma_balance_span(s, begin + 1, begin + 1 + k);
                                assert(inner.take(k) == s.subrange(begin + 1, begin + 1 + k));
                            };
                        }
                        let body = parse_loops(body_ops);
                        match body {
                            Ok(b) => {
                                let ghost before = prog@;
                                prog.push(Instruction::Loop(b));
                                assert(prog@.drop_last() == before);
                                assert(s.take(i + 1) == s.take(begin as int) + seq![OpCode::LoopBegin] + inner + seq![OpCode::LoopEnd]);
                            },
                            Err(e) => {
                                return Err(e);
                            },
                        }
                    }
                },
                _ => {},
            }
        }
        i = i + 1;
    }
    if depth > 0 {
        assert(s.take(s.len() as int) == s);
        return Err(ParseError::UnmatchedLoopStart(begin));
    }
    assert(s.take(s.len() as int) == s);
    Ok(prog)
}

} // verus!
