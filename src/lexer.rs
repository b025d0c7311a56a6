use crate::ops::OpCode;
use vstd::prelude::*;

verus! {

/// The operation that a source character stands for, if it stands for one.
pub open spec fn op_of_char(c: char) -> Option<OpCode> {
    if c == '>' {
        Some(OpCode::IncPtr)
    } else if c == '<' {
        Some(OpCode::DecPtr)
    } else if c == '+' {
        Some(OpCode::Inc)
    } else if c == '-' {
        Some(OpCode::Dec)
    } else if c == '.' {
        Some(OpCode::Write)
    } else if c == ',' {
        Some(OpCode::Read)
    } else if c == '[' {
        Some(OpCode::LoopStart)
    } else if c == ']' {
        Some(OpCode::LoopStop)
    } else {
        None
    }
}

/// The operations of a source text: each recognised character in order, every
/// other character dropped.
pub open spec fn lexed(s: Seq<char>) -> Seq<OpCode> {
    s.filter_map(|c: char| op_of_char(c))
}

fn classify(c: char) -> (r: Option<OpCode>)
    ensures
        r == op_of_char(c),
{
    match c {
        '>' => Some(OpCode::IncPtr),
        '<' => Some(OpCode::DecPtr),
        '+' => Some(OpCode::Inc),
        '-' => Some(OpCode::Dec),
        '.' => Some(OpCode::Write),
        ',' => Some(OpCode::Read),
        '[' => Some(OpCode::LoopStart),
        ']' => Some(OpCode::LoopStop),
        _ => None,
    }
}

/// Turns source text into operations, ignoring every character that is not
/// one of `> < + - . , [ ]`.
pub fn lex(code: &str) -> (operations: Vec<OpCode>)
    ensures
        operations@ == lexed(code@),
{
    let mut operations: Vec<OpCode> = Vec::new();
    let ghost s = code@;
    for symbol in it: code.chars()
        invariant
            it.seq() == s,
            operations@ == s.take(it.index()).filter_map(|c: char| op_of_char(c)),
    {
        proof {
            s.lemma_filter_map_take_succ(|c: char| op_of_char(c), it.index());
        }
        match classify(symbol) {
            Some(operation) => operations.push(operation),
            None => (),
        }
    }
    assert(s.take(s.len() as int) == s);
    operations
}

/// Lexing a concatenation lexes each part.
pub proof fn lemma_lexed_concat(a: Seq<char>, b: Seq<char>)
    ensures
        lexed(a + b) == lexed(a) + lexed(b),
    decreases b.len(),
{
    if b.len() > 0 {
        lemma_lexed_concat(a, b.drop_last());
        assert((a + b).drop_last() == a + b.drop_last());
    } else {
        assert(a + b == a);
    }
}

/// A character that stands for no operation changes nothing in the lexed
/// operations, wherever it is inserted.
pub proof fn lemma_lex_ignores_other(s: Seq<char>, i: int, c: char)
    requires
        0 <= i <= s.len(),
        op_of_char(c) is None,
    ensures
        lexed(s.insert(i, c)) == lexed(s),
{
    let pre = s.take(i);
    let post = s.skip(i);
    assert(s.insert(i, c) == pre + (seq![c] + post));
    assert(s == pre + post);
    lemma_lexed_concat(pre, seq![c] + post);
    lemma_lexed_concat(seq![c], post);
    lemma_lexed_concat(pre, post);
    assert(seq![c].drop_last() == Seq::<char>::empty());
    assert(lexed(Seq::<char>::empty()) == Seq::<OpCode>::empty());
    assert(lexed(seq![c]) == Seq::<OpCode>::empty());
}

/// The character is one of the eight that stand for an operation.
pub open spec fn recognized(c: char) -> bool {
    op_of_char(c) is Some
}

/// Lexing is filtering to the recognised characters, then mapping each one
/// to its operation.
pub proof fn lemma_lexed_is_filter_then_map(s: Seq<char>)
    ensures
        lexed(s) == s.filter(|c: char| recognized(c)).map_values(|c: char| op_of_char(c)->0),
    decreases s.len(),
{
    let p = |c: char| recognized(c);
    let f = |c: char| op_of_char(c)->0;
    if s.len() == 0 {
        assert(s.filter(p).len() == 0) by {
            s.lemma_filter_len(p);
        }
        assert(s.filter(p).map_values(f) == Seq::<OpCode>::empty());
    } else {
        let rest = s.drop_last();
        lemma_lexed_is_filter_then_map(rest);
        assert(rest.push(s.last()) == s);
        rest.lemma_filter_push(s.last(), p);
        if recognized(s.last()) {
            assert(rest.filter(p).push(s.last()).map_values(f) == rest.filter(p).map_values(f)
                + seq![f(s.last())]);
        }
    }
}

} // verus!
