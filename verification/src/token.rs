use vstd::prelude::*;
use crate::instructions::Instruction;

verus! {

/// One unit of scanned input.
///
/// A scanner hands every numeric literal out as `Literal`, with its text.
/// The caller replaces each literal that it can read by `Number`, with the
/// bit pattern of its value; a literal that it leaves in place counts as
/// unreadable.
#[derive(Debug, PartialEq, Eq)]
pub enum Token {
    /// The text of a numeric literal that has not been read, or cannot be.
    Literal(String),
    /// A number, as its bit pattern.
    Number(u64),
    /// One of `+ - * /`.
    Operator(char),
    /// An opening parenthesis.
    Open,
    /// A closing parenthesis.
    Close,
    /// A character that has no place in an infix expression.
    Unexpected(char),
    /// An instruction that raw input names in full.
    Mnemonic(Instruction),
}

/// The mathematical value of a `Token`.
pub enum Symbol {
    Literal(Seq<char>),
    Number(u64),
    Operator(char),
    Open,
    Close,
    Unexpected(char),
    Mnemonic(Instruction),
}

impl View for Token {
    type V = Symbol;

    open spec fn view(&self) -> Symbol {
        match self {
            Token::Literal(text) => Symbol::Literal(text@),
            Token::Number(bits) => Symbol::Number(*bits),
            Token::Operator(c) => Symbol::Operator(*c),
            Token::Open => Symbol::Open,
            Token::Close => Symbol::Close,
            Token::Unexpected(c) => Symbol::Unexpected(*c),
            Token::Mnemonic(instruction) => Symbol::Mnemonic(*instruction),
        }
    }
}

impl DeepView for Token {
    type V = Symbol;

    open spec fn deep_view(&self) -> Symbol {
        self@
    }
}

impl Clone for Token {
    fn clone(&self) -> (token: Token)
        ensures
            token@ == self@,
    {
        match self {
            Token::Literal(text) => Token::Literal(text.clone()),
            Token::Number(bits) => Token::Number(*bits),
            Token::Operator(c) => Token::Operator(*c),
            Token::Open => Token::Open,
            Token::Close => Token::Close,
            Token::Unexpected(c) => Token::Unexpected(*c),
            Token::Mnemonic(instruction) => Token::Mnemonic(*instruction),
        }
    }
}

impl Token {
    /// The text of a literal that is still to be read.
    pub fn literal(&self) -> (text: Option<&String>)
        ensures
            match text {
                Some(s) => self@ == Symbol::Literal(s@),
                None => !(self@ is Literal),
            },
    {
        match self {
            Token::Literal(text) => Some(text),
            _ => None,
        }
    }

    /// Replaces a literal by the number that it was read as. `None` says
    /// that the text is no number, and leaves the literal in place; so
    /// does any token that is no literal.
    pub fn resolve(self, value: Option<u64>) -> (token: Token)
        ensures
            token@ == resolved(self@, value),
    {
        match (self, value) {
            (Token::Literal(_), Some(bits)) => Token::Number(bits),
            (other, _) => other,
        }
    }
}

/// What `resolve` makes of a symbol.
pub open spec fn resolved(symbol: Symbol, value: Option<u64>) -> Symbol {
    match (symbol, value) {
        (Symbol::Literal(_), Some(bits)) => Symbol::Number(bits),
        _ => symbol,
    }
}

/// A character is a Unicode scalar value: a code point outside the
/// surrogate range. (To be called for a character that was taken out of
/// a sequence, of which this is not known otherwise.)
pub(crate) proof fn scalar_value(c: char)
    ensures
        0 <= c as int <= 0xD7FF || 0xE000 <= c as int <= 0x10FFFF,
{
}

/// What `pick` makes of the members of `items`, in order; members of
/// which it makes nothing are left out.
pub open spec fn gathered<T, U>(items: Seq<T>, pick: spec_fn(T) -> Option<U>) -> Seq<U>
    decreases items.len(),
{
    if items.len() == 0 {
        Seq::empty()
    } else {
        let rest = gathered(items.drop_last(), pick);
        match pick(items.last()) {
            Some(found) => rest.push(found),
            None => rest,
        }
    }
}

/// Gathering from a list of one member.
pub proof fn gathered_from_one<T, U>(item: T, pick: spec_fn(T) -> Option<U>)
    ensures
        gathered(seq![item], pick) == match pick(item) {
            Some(found) => seq![found],
            None => Seq::empty(),
        },
{
    assert(seq![item].drop_last() == Seq::<T>::empty());
    assert(gathered(seq![item].drop_last(), pick) == Seq::<U>::empty());
    match pick(item) {
        Some(found) => {
            assert(Seq::<U>::empty().push(found) == seq![found]);
        },
        None => {},
    }
}

/// Gathering from two lists in a row is gathering from each.
pub proof fn gathered_in_parts<T, U>(a: Seq<T>, b: Seq<T>, pick: spec_fn(T) -> Option<U>)
    ensures
        gathered(a + b, pick) == gathered(a, pick) + gathered(b, pick),
    decreases b.len(),
{
    if b.len() == 0 {
        assert(a + b == a);
        assert(gathered(a, pick) + gathered(b, pick) == gathered(a, pick));
    } else {
        assert((a + b).drop_last() == a + b.drop_last());
        gathered_in_parts(a, b.drop_last(), pick);
        assert((a + b).last() == b.last());
        match pick(b.last()) {
            Some(found) => {
                assert((gathered(a, pick) + gathered(b.drop_last(), pick)).push(found)
                    == gathered(a, pick) + gathered(b.drop_last(), pick).push(found));
            },
            None => {},
        }
    }
}

/// Adding a token at the end of a list adds its symbol at the end of the
/// list's symbols.
pub(crate) proof fn symbols_after_push(before: Vec<Token>, after: Vec<Token>, token: Token)
    requires
        after@ == before@.push(token),
    ensures
        after.deep_view() == before.deep_view().push(token@),
{
    assert(after.deep_view() =~= before.deep_view().push(token@));
}

} // verus!
