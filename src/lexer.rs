use vstd::prelude::*;
use crate::opcode::OpCode;

verus! {

/// The opcode that a character stands for, if it is one of `> < + - . , [ ]`.
pub open spec fn opcode_of(c: char) -> Option<OpCode> {
    if c == '>' {
        Some(OpCode::IncrementPointer)
    } else if c == '<' {
        Some(OpCode::DecrementPointer)
    } else if c == '+' {
        Some(OpCode::Increment)
    } else if c == '-' {
        Some(OpCode::Decrement)
    } else if c == '.' {
        Some(OpCode::Write)
    } else if c == ',' {
        Some(OpCode::Read)
    } else if c == '[' {
        Some(OpCode::LoopBegin)
    } else if c == ']' {
        Some(OpCode::LoopEnd)
    } else {
        None
    }
}

/// The opcodes of a text: one per instruction character, in order; every
/// other character is dropped.
pub open spec fn lex(s: Seq<char>) -> Seq<OpCode>
    decreases s.len(),
{
    if s.len() == 0 {
        Seq::empty()
    } else {
        lex(s.drop_last()) + match opcode_of(s.last()) {
            Some(o) => seq![o],
            None => Seq::empty(),
        }
    }
}

/// Lexing distributes over concatenation.
pub proof fn lemma_lex_append(a: Seq<char>, b: Seq<char>)
    ensures
        lex(a + b) == lex(a) + lex(b),
    decreases b.len(),
{
    if b.len() == 0 {
        assert(a + b == a);
        assert(lex(a) + lex(b) == lex(a));
    } else {
        assert((a + b).drop_last() == a + b.drop_last());
        assert((a + b).last() == b.last());
        lemma_lex_append(a, b.drop_last());
    }
}

/// Characters other than the eight instruction characters do not matter:
/// inserting one anywhere in a text leaves its opcodes unchanged (and so
/// does removing one, which is the same equation read from right to left).
pub proof fn lemma_lex_ignores_other_chars(s: Seq<char>, i: int, c: char)
    requires
        0 <= i <= s.len(),
        opcode_of(c) is None,
    ensures
        lex(s.insert(i, c)) == lex(s),
{
    let front = s.take(i);
    let back = s.skip(i);
    assert(s.insert(i, c) == front + seq![c] + back);
    assert(s == front + back);
    lemma_lex_append(front + seq![c], back);
    lemma_lex_append(front, seq![c]);
    lemma_lex_append(front, back);
    assert(seq![c].drop_last() == Seq::<char>::empty());
    assert(seq![c].last() == c);
    assert(lex(Seq::<char>::empty()) == Seq::<OpCode>::empty());
    assert(lex(seq![c]) == Seq::<OpCode>::empty() + Seq::<OpCode>::empty());
    assert(lex(seq![c]) == Seq::<OpCode>::empty());
    assert(lex(front) + Seq::<OpCode>::empty() == lex(front));
}

/// Lexes source text into its opcodes.
pub fn char_to_opcode(source: String) -> (ops: Vec<OpCode>)
    ensures
        ops@ == lex(source@),
{
    let mut ops: Vec<OpCode> = Vec::new();
    for ch in it: source.as_str().chars()
        invariant
            it.seq() == source@,
            ops@ == lex(source@.take(it.index() as int)),
    {
        let ghost done = source@.take(it.index() as int);
        assert(source@.take(it.index() + 1).drop_last() == done);
        if ch == '>' {
            ops.push(OpCode::IncrementPointer);
        } else if ch == '<' {
            ops.push(OpCode::DecrementPointer);
        } else if ch == '+' {
            ops.push(OpCode::Increment);
        } else if ch == '-' {
            ops.push(OpCode::Decrement);
        } else if ch == '.' {
            ops.push(OpCode::Write);
        } else if ch == ',' {
            ops.push(OpCode::Read);
        } else if ch == '[' {
            ops.push(OpCode::LoopBegin);
        } else if ch == ']' {
            ops.push(OpCode::LoopEnd);
        }
        assert(ops@ == lex(source@.take(it.index() + 1)));
    }
    assert(source@.take(source@.len() as int) == source@);
    ops
}

} // verus!
