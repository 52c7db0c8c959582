use vstd::prelude::*;
use crate::instructions::Instruction;
use crate::parser::{is_operator, operator, CalcMode};
use crate::text::{characters, numeric, text_between, whitespace};
use crate::token::{
    gathered, gathered_from_one, gathered_in_parts, scalar_value, symbols_after_push, Symbol,
    Token,
};

verus! {

/// The kinds of character that a scanner gathers into runs.
#[derive(Clone, Copy, Debug, PartialEq, Eq, Structural)]
pub enum Class {
    /// The ten decimal digits.
    Digit,
    /// What can stand in a numeric literal of an infix expression: a
    /// numeric character or a dot.
    Numeric,
    /// What can stand in a word: anything but whitespace.
    Word,
}

/// Whether `c` is one of the ten decimal digits.
pub open spec fn digit(c: char) -> bool {
    '0' <= c <= '9'
}

/// Whether `c` is of the class.
pub open spec fn belongs(class: Class, c: char) -> bool {
    match class {
        Class::Digit => digit(c),
        Class::Numeric => numeric(c) || c == '.',
        Class::Word => !whitespace(c),
    }
}

/// The length of the longest prefix of `s` that lies in `class`.
pub open spec fn span(s: Seq<char>, class: Class) -> nat
    decreases s.len(),
{
    if s.len() > 0 && belongs(class, s.first()) {
        1 + span(s.drop_first(), class)
    } else {
        0
    }
}

/// A span is no longer than the sequence that it starts.
proof fn span_is_bounded(s: Seq<char>, class: Class)
    ensures
        span(s, class) <= s.len(),
    decreases s.len(),
{
    if s.len() > 0 && belongs(class, s.first()) {
        span_is_bounded(s.drop_first(), class);
    }
}

fn is_member(class: Class, c: char) -> (b: bool)
    ensures
        b == belongs(class, c),
{
    match class {
        Class::Digit => '0' <= c && c <= '9',
        Class::Numeric => c.is_numeric() || c == '.',
        Class::Word => !c.is_whitespace(),
    }
}

/// The index at which the span that starts at `from` ends.
fn span_end(chars: &Vec<char>, from: usize, class: Class) -> (to: usize)
    requires
        from <= chars.len(),
    ensures
        from <= to <= chars.len(),
        to - from == span(chars@.skip(from as int), class),
{
    let mut to: usize = from;
    while to < chars.len() && is_member(class, chars[to])
        invariant
            from <= to <= chars.len(),
            span(chars@.skip(from as int), class) == (to - from) + span(
                chars@.skip(to as int),
                class,
            ),
        decreases chars.len() - to,
    {
        proof {
            assert(chars@.skip(to as int).drop_first() == chars@.skip(to + 1));
        }
        to += 1;
    }
    to
}

/// The symbols of an infix expression: whitespace separates and is
/// dropped; a longest run of numeric characters and dots is one literal;
/// operators and parentheses stand for themselves; the first character
/// that is none of these ends the scan as an unexpected one.
pub open spec fn infix_symbols(s: Seq<char>) -> Seq<Symbol>
    decreases s.len(),
    via infix_symbols_decreases
{
    if s.len() == 0 {
        Seq::empty()
    } else if whitespace(s.first()) {
        infix_symbols(s.drop_first())
    } else if belongs(Class::Numeric, s.first()) {
        let n = span(s, Class::Numeric);
        seq![Symbol::Literal(s.take(n as int))] + infix_symbols(s.skip(n as int))
    } else if s.first() == '(' {
        seq![Symbol::Open] + infix_symbols(s.drop_first())
    } else if s.first() == ')' {
        seq![Symbol::Close] + infix_symbols(s.drop_first())
    } else if operator(s.first()) {
        seq![Symbol::Operator(s.first())] + infix_symbols(s.drop_first())
    } else {
        seq![Symbol::Unexpected(s.first())]
    }
}

#[via_fn]
proof fn infix_symbols_decreases(s: Seq<char>) {
    span_is_bounded(s, Class::Numeric);
}

/// The words of a text: its longest runs of characters that are not
/// whitespace, in order.
pub open spec fn words(s: Seq<char>) -> Seq<Seq<char>>
    decreases s.len(),
    via words_decreases
{
    if s.len() == 0 {
        Seq::empty()
    } else if whitespace(s.first()) {
        words(s.drop_first())
    } else {
        let n = span(s, Class::Word);
        seq![s.take(n as int)] + words(s.skip(n as int))
    }
}

#[via_fn]
proof fn words_decreases(s: Seq<char>) {
    span_is_bounded(s, Class::Word);
}

/// Scans an infix expression.
pub fn scan_infix(expression: &str) -> (tokens: Vec<Token>)
    ensures
        tokens.deep_view() == infix_symbols(expression@),
{
    let chars = characters(expression);
    infix_tokens(&chars)
}

fn infix_tokens(chars: &Vec<char>) -> (tokens: Vec<Token>)
    ensures
        tokens.deep_view() == infix_symbols(chars@),
{
    let mut tokens: Vec<Token> = Vec::new();
    let mut i: usize = 0;
    proof {
        assert(chars@.skip(0) == chars@);
    }
    while i < chars.len()
        invariant
            i <= chars.len(),
            tokens.deep_view() + infix_symbols(chars@.skip(i as int)) == infix_symbols(chars@),
        decreases chars.len() - i,
    {
        let ghost rest = chars@.skip(i as int);
        let ghost before = tokens.deep_view();
        let ghost earlier = tokens;
        let c = chars[i];
        proof {
            assert(rest.first() == c);
            assert(rest.drop_first() == chars@.skip(i + 1));
        }
        if c.is_whitespace() {
            i += 1;
        } else if c.is_numeric() || c == '.' {
            let end = span_end(chars, i, Class::Numeric);
            let token = Token::Literal(text_between(chars, i, end));
            tokens.push(token);
            proof {
                let n = span(rest, Class::Numeric);
                assert(rest.take(n as int) == chars@.subrange(i as int, end as int));
                assert(rest.skip(n as int) == chars@.skip(end as int));
                symbols_after_push(earlier, tokens, token);
                assert(before + (seq![Symbol::Literal(rest.take(n as int))] + infix_symbols(
                    rest.skip(n as int),
                )) == before.push(Symbol::Literal(rest.take(n as int))) + infix_symbols(
                    rest.skip(n as int),
                ));
            }
            i = end;
        } else if is_operator(c) || c == '(' || c == ')' {
            let token = if c == '(' {
                Token::Open
            } else if c == ')' {
                Token::Close
            } else {
                Token::Operator(c)
            };
            let ghost symbol = token@;
            tokens.push(token);
            proof {
                symbols_after_push(earlier, tokens, token);
                assert(before + (seq![symbol] + infix_symbols(rest.drop_first()))
                    == before.push(symbol) + infix_symbols(rest.drop_first()));
            }
            i += 1;
        } else {
            tokens.push(Token::Unexpected(c));
            proof {
                symbols_after_push(earlier, tokens, Token::Unexpected(c));
                scalar_value(c);
                assert(before.push(Symbol::Unexpected(c)) == before + seq![
                    Symbol::Unexpected(c),
                ]);
            }
            return tokens;
        }
    }
    proof {
        assert(tokens.deep_view() + Seq::<Symbol>::empty() == tokens.deep_view());
    }
    tokens
}

/// The symbol of a word of a postfix expression: one of the four
/// operators, or else a literal that is still to be read.
pub open spec fn postfix_symbol(word: Seq<char>) -> Symbol {
    if word.len() == 1 && operator(word[0]) {
        Symbol::Operator(word[0])
    } else {
        Symbol::Literal(word)
    }
}

/// The value of a decimal digit.
pub open spec fn digit_value(c: char) -> nat {
    (c as int - 48) as nat
}

/// The number that a sequence of decimal digits denotes.
pub open spec fn decimal(digits: Seq<char>) -> nat
    decreases digits.len(),
{
    if digits.len() == 0 {
        0
    } else {
        decimal(digits.drop_last()) * 10 + digit_value(digits.last())
    }
}

/// Whether `s` is one decimal digit or more, and nothing else.
pub open spec fn all_digits(s: Seq<char>) -> bool {
    s.len() > 0 && span(s, Class::Digit) == s.len()
}

/// Whether `s` is digits, or digits, a dot and digits.
pub open spec fn plain_number(s: Seq<char>) -> bool {
    let whole = span(s, Class::Digit);
    whole > 0 && (whole == s.len() || (s[whole as int] == '.' && all_digits(s.skip(whole as int + 1))))
}

/// The index that `s` denotes: `s` is all digits and the number fits.
pub open spec fn index_value(s: Seq<char>) -> Option<usize> {
    if all_digits(s) && decimal(s) <= usize::MAX {
        Some(decimal(s) as usize)
    } else {
        None
    }
}

/// Whether `word` begins with `tag`.
pub open spec fn tagged(word: Seq<char>, tag: Seq<char>) -> bool {
    word.len() >= tag.len() && word.take(tag.len() as int) == tag
}

/// The instruction that `make` builds from the index behind the tag.
pub open spec fn with_index(
    word: Seq<char>,
    tag: Seq<char>,
    make: spec_fn(usize) -> Instruction,
) -> Option<Symbol> {
    match index_value(word.skip(tag.len() as int)) {
        Some(n) => Some(Symbol::Mnemonic(make(n))),
        None => None,
    }
}

/// The instruction that a word without operand names.
pub open spec fn plain_mnemonic(word: Seq<char>) -> Option<Instruction> {
    if word == "add"@ {
        Some(Instruction::ADD)
    } else if word == "sub"@ {
        Some(Instruction::SUB)
    } else if word == "mul"@ {
        Some(Instruction::MUL)
    } else if word == "div"@ {
        Some(Instruction::DIV)
    } else if word == "neg"@ {
        Some(Instruction::NEG)
    } else if word == "ceq"@ {
        Some(Instruction::CEQ)
    } else if word == "cgt"@ {
        Some(Instruction::CGT)
    } else if word == "clt"@ {
        Some(Instruction::CLT)
    } else if word == "dup"@ {
        Some(Instruction::DUP)
    } else if word == "pop"@ {
        Some(Instruction::POP)
    } else if word == "nop"@ {
        Some(Instruction::NOP)
    } else if word == "rng"@ {
        Some(Instruction::RNG)
    } else {
        None
    }
}

/// The symbol of a word of raw input. `ldc:` takes digits, or digits, a
/// dot and digits, and yields them as a literal that is still to be read.
/// `ldv:`, `stv:`, `br:`, `brtrue:` and `brfalse:` take digits that denote
/// an index. The other mnemonics stand alone. Any other word is no
/// symbol.
pub open spec fn raw_symbol(word: Seq<char>) -> Option<Symbol> {
    if tagged(word, "ldc:"@) {
        if plain_number(word.skip("ldc:"@.len() as int)) {
            Some(Symbol::Literal(word.skip("ldc:"@.len() as int)))
        } else {
            None
        }
    } else if tagged(word, "ldv:"@) {
        with_index(word, "ldv:"@, |n: usize| Instruction::LDV(n))
    } else if tagged(word, "stv:"@) {
        with_index(word, "stv:"@, |n: usize| Instruction::STV(n))
    } else if tagged(word, "br:"@) {
        with_index(word, "br:"@, |n: usize| Instruction::BR(n))
    } else if tagged(word, "brtrue:"@) {
        with_index(word, "brtrue:"@, |n: usize| Instruction::BRTRUE(n))
    } else if tagged(word, "brfalse:"@) {
        with_index(word, "brfalse:"@, |n: usize| Instruction::BRFALSE(n))
    } else {
        match plain_mnemonic(word) {
            Some(instruction) => Some(Symbol::Mnemonic(instruction)),
            None => None,
        }
    }
}

/// The symbol of a word in postfix or raw notation. (An infix expression
/// is not made of words.)
pub open spec fn word_symbol(mode: CalcMode, word: Seq<char>) -> Option<Symbol> {
    match mode {
        CalcMode::INFIX => None,
        CalcMode::POSTFIX => Some(postfix_symbol(word)),
        CalcMode::RAW => raw_symbol(word),
    }
}

/// The symbols of a text in postfix notation: one for each word.
pub open spec fn postfix_symbols(s: Seq<char>) -> Seq<Symbol> {
    gathered(words(s), |word: Seq<char>| word_symbol(CalcMode::POSTFIX, word))
}

/// The symbols of raw input: one for each word that is a symbol.
pub open spec fn raw_symbols(s: Seq<char>) -> Seq<Symbol> {
    gathered(words(s), |word: Seq<char>| word_symbol(CalcMode::RAW, word))
}

/// The symbols of a text in the given notation.
pub open spec fn symbols_of(mode: CalcMode, s: Seq<char>) -> Seq<Symbol> {
    match mode {
        CalcMode::INFIX => infix_symbols(s),
        CalcMode::POSTFIX => postfix_symbols(s),
        CalcMode::RAW => raw_symbols(s),
    }
}

/// Whether the characters from `from` up to `to` spell `text`.
fn spells(chars: &Vec<char>, from: usize, to: usize, text: &str) -> (b: bool)
    requires
        from <= to <= chars.len(),
    ensures
        b == (chars@.subrange(from as int, to as int) == text@),
{
    let expected = characters(text);
    if to - from != expected.len() {
        return false;
    }
    let mut i: usize = 0;
    while i < expected.len()
        invariant
            from <= to <= chars.len(),
            to - from == expected.len(),
            expected@ == text@,
            i <= expected.len(),
            chars@.subrange(from as int, from + i) == text@.take(i as int),
        decreases expected.len() - i,
    {
        if chars[from + i] != expected[i] {
            proof {
                assert(chars@.subrange(from as int, to as int)[i as int] != text@[i as int]);
            }
            return false;
        }
        proof {
            assert(chars@.subrange(from as int, from + i + 1) == chars@.subrange(
                from as int,
                from + i,
            ).push(chars@[from + i]));
            assert(text@.take(i + 1) == text@.take(i as int).push(text@[i as int]));
        }
        i += 1;
    }
    proof {
        assert(text@.take(i as int) == text@);
    }
    true
}

/// The length of `tag`, where the characters from `from` up to `to` begin
/// with it.
fn behind(chars: &Vec<char>, from: usize, to: usize, tag: &str) -> (rest: Option<usize>)
    requires
        from <= to <= chars.len(),
    ensures
        match rest {
            Some(start) => tagged(chars@.subrange(from as int, to as int), tag@) && start == from
                + tag@.len(),
            None => !tagged(chars@.subrange(from as int, to as int), tag@),
        },
{
    let length = tag.unicode_len();
    if to - from < length {
        return None;
    }
    proof {
        assert(chars@.subrange(from as int, to as int).take(length as int) == chars@.subrange(
            from as int,
            from + length,
        ));
    }
    if spells(chars, from, from + length, tag) {
        Some(from + length)
    } else {
        None
    }
}

fn digit_of(c: char) -> (d: usize)
    requires
        digit(c),
    ensures
        d == digit_value(c),
{
    match c {
        '0' => 0,
        '1' => 1,
        '2' => 2,
        '3' => 3,
        '4' => 4,
        '5' => 5,
        '6' => 6,
        '7' => 7,
        '8' => 8,
        _ => 9,
    }
}

/// A sequence of digits denotes at least what any of its prefixes
/// denotes.
proof fn decimal_grows(digits: Seq<char>, k: int)
    requires
        0 <= k <= digits.len(),
    ensures
        decimal(digits.take(k)) <= decimal(digits),
    decreases digits.len() - k,
{
    if k == digits.len() {
        assert(digits.take(k) == digits);
    } else {
        decimal_grows(digits, k + 1);
        assert(digits.take(k + 1).drop_last() == digits.take(k));
    }
}

/// The index that the characters from `from` up to `to` denote.
fn index_between(chars: &Vec<char>, from: usize, to: usize) -> (index: Option<usize>)
    requires
        from <= to <= chars.len(),
    ensures
        index == index_value(chars@.subrange(from as int, to as int)),
{
    let ghost digits = chars@.subrange(from as int, to as int);
    let end = span_end(chars, from, Class::Digit);
    proof {
        span_of_prefix(chars@.skip(from as int), (to - from) as int, Class::Digit);
        assert(chars@.skip(from as int).take(to - from) == digits);
    }
    if from == to || end < to {
        return None;
    }
    let mut value: usize = 0;
    let mut i: usize = from;
    while i < to
        invariant
            from <= i <= to <= chars.len(),
            digits == chars@.subrange(from as int, to as int),
            all_digits(digits),
            value == decimal(digits.take(i - from)),
        decreases to - i,
    {
        proof {
            span_covers(digits, i - from, Class::Digit);
            assert(digits.take(i - from + 1).drop_last() == digits.take(i - from));
            decimal_grows(digits, i - from + 1);
        }
        let d = digit_of(chars[i]);
        if value > (usize::MAX - d) / 10 {
            return None;
        }
        value = value * 10 + d;
        i += 1;
    }
    proof {
        assert(digits.take(to - from) == digits);
    }
    Some(value)
}

/// Where the span of `s` ends: within a prefix of `s` it is the span of
/// `s`, cut at the prefix's end.
proof fn span_of_prefix(s: Seq<char>, k: int, class: Class)
    requires
        0 <= k <= s.len(),
    ensures
        span(s.take(k), class) == if span(s, class) <= k {
            span(s, class)
        } else {
            k as nat
        },
    decreases s.len(),
{
    if k > 0 && belongs(class, s.first()) {
        assert(s.take(k).drop_first() == s.drop_first().take(k - 1));
        span_of_prefix(s.drop_first(), k - 1, class);
    }
}

/// Every member of a span lies in the class.
proof fn span_covers(s: Seq<char>, i: int, class: Class)
    requires
        0 <= i < span(s, class),
    ensures
        i < s.len(),
        belongs(class, s[i]),
    decreases i,
{
    if i > 0 {
        span_covers(s.drop_first(), i - 1, class);
    }
}

/// Whether the characters from `from` up to `to` are digits, or digits, a
/// dot and digits.
fn is_plain_number(chars: &Vec<char>, from: usize, to: usize) -> (b: bool)
    requires
        from <= to <= chars.len(),
    ensures
        b == plain_number(chars@.subrange(from as int, to as int)),
{
    let ghost word = chars@.subrange(from as int, to as int);
    let whole = span_end(chars, from, Class::Digit);
    proof {
        span_of_prefix(chars@.skip(from as int), (to - from) as int, Class::Digit);
        assert(chars@.skip(from as int).take(to - from) == word);
    }
    if whole == from || from == to {
        false
    } else if whole >= to {
        true
    } else if chars[whole] != '.' {
        assert(word[whole - from] == chars[whole as int]);
        false
    } else {
        assert(word[whole - from] == chars[whole as int]);
        let fraction = span_end(chars, whole + 1, Class::Digit);
        proof {
            let tail = word.skip(whole - from + 1);
            span_of_prefix(chars@.skip(whole + 1), (to - whole - 1) as int, Class::Digit);
            assert(chars@.skip(whole + 1).take(to - whole - 1) == tail);
            assert(tail.len() == to - whole - 1);
        }
        whole + 1 < to && fraction >= to
    }
}

fn mnemonic(chars: &Vec<char>, from: usize, to: usize) -> (instruction: Option<Instruction>)
    requires
        from <= to <= chars.len(),
    ensures
        instruction == plain_mnemonic(chars@.subrange(from as int, to as int)),
{
    if spells(chars, from, to, "add") {
        Some(Instruction::ADD)
    } else if spells(chars, from, to, "sub") {
        Some(Instruction::SUB)
    } else if spells(chars, from, to, "mul") {
        Some(Instruction::MUL)
    } else if spells(chars, from, to, "div") {
        Some(Instruction::DIV)
    } else if spells(chars, from, to, "neg") {
        Some(Instruction::NEG)
    } else if spells(chars, from, to, "ceq") {
        Some(Instruction::CEQ)
    } else if spells(chars, from, to, "cgt") {
        Some(Instruction::CGT)
    } else if spells(chars, from, to, "clt") {
        Some(Instruction::CLT)
    } else if spells(chars, from, to, "dup") {
        Some(Instruction::DUP)
    } else if spells(chars, from, to, "pop") {
        Some(Instruction::POP)
    } else if spells(chars, from, to, "nop") {
        Some(Instruction::NOP)
    } else if spells(chars, from, to, "rng") {
        Some(Instruction::RNG)
    } else {
        None
    }
}

/// The token of the word of raw input that runs from `from` up to `to`.
fn raw_token(chars: &Vec<char>, from: usize, to: usize) -> (token: Option<Token>)
    requires
        from <= to <= chars.len(),
    ensures
        token.deep_view() == raw_symbol(chars@.subrange(from as int, to as int)),
{
    let ghost word = chars@.subrange(from as int, to as int);
    if let Some(start) = behind(chars, from, to, "ldc:") {
        proof {
            assert(word.skip("ldc:"@.len() as int) == chars@.subrange(start as int, to as int));
        }
        if is_plain_number(chars, start, to) {
            Some(Token::Literal(text_between(chars, start, to)))
        } else {
            None
        }
    } else if let Some(start) = behind(chars, from, to, "ldv:") {
        proof {
            assert(word.skip("ldv:"@.len() as int) == chars@.subrange(start as int, to as int));
        }
        match index_between(chars, start, to) {
            Some(n) => Some(Token::Mnemonic(Instruction::LDV(n))),
            None => None,
        }
    } else if let Some(start) = behind(chars, from, to, "stv:") {
        proof {
            assert(word.skip("stv:"@.len() as int) == chars@.subrange(start as int, to as int));
        }
        match index_between(chars, start, to) {
            Some(n) => Some(Token::Mnemonic(Instruction::STV(n))),
            None => None,
        }
    } else if let Some(start) = behind(chars, from, to, "br:") {
        proof {
            assert(word.skip("br:"@.len() as int) == chars@.subrange(start as int, to as int));
        }
        match index_between(chars, start, to) {
            Some(n) => Some(Token::Mnemonic(Instruction::BR(n))),
            None => None,
        }
    } else if let Some(start) = behind(chars, from, to, "brtrue:") {
        proof {
            assert(word.skip("brtrue:"@.len() as int) == chars@.subrange(
                start as int,
                to as int,
            ));
        }
        match index_between(chars, start, to) {
            Some(n) => Some(Token::Mnemonic(Instruction::BRTRUE(n))),
            None => None,
        }
    } else if let Some(start) = behind(chars, from, to, "brfalse:") {
        proof {
            assert(word.skip("brfalse:"@.len() as int) == chars@.subrange(
                start as int,
                to as int,
            ));
        }
        match index_between(chars, start, to) {
            Some(n) => Some(Token::Mnemonic(Instruction::BRFALSE(n))),
            None => None,
        }
    } else {
        match mnemonic(chars, from, to) {
            Some(instruction) => Some(Token::Mnemonic(instruction)),
            None => None,
        }
    }
}

/// The token of the word of a postfix expression that runs from `from` up
/// to `to`.
fn postfix_token(chars: &Vec<char>, from: usize, to: usize) -> (token: Token)
    requires
        from <= to <= chars.len(),
    ensures
        token@ == postfix_symbol(chars@.subrange(from as int, to as int)),
{
    if to - from == 1 && is_operator(chars[from]) {
        Token::Operator(chars[from])
    } else {
        Token::Literal(text_between(chars, from, to))
    }
}

/// Scans a text word by word.
fn word_tokens(chars: &Vec<char>, mode: CalcMode) -> (tokens: Vec<Token>)
    ensures
        tokens.deep_view() == gathered(
            words(chars@),
            |word: Seq<char>| word_symbol(mode, word),
        ),
{
    let ghost pick = |word: Seq<char>| word_symbol(mode, word);
    let mut tokens: Vec<Token> = Vec::new();
    let mut i: usize = 0;
    proof {
        assert(chars@.skip(0) == chars@);
    }
    while i < chars.len()
        invariant
            i <= chars.len(),
            pick == |word: Seq<char>| word_symbol(mode, word),
            tokens.deep_view() + gathered(words(chars@.skip(i as int)), pick) == gathered(
                words(chars@),
                pick,
            ),
        decreases chars.len() - i,
    {
        let ghost rest = chars@.skip(i as int);
        let ghost before = tokens.deep_view();
        let ghost earlier = tokens;
        proof {
            assert(rest.first() == chars[i as int]);
            assert(rest.drop_first() == chars@.skip(i + 1));
        }
        if chars[i].is_whitespace() {
            i += 1;
        } else {
            let end = span_end(chars, i, Class::Word);
            let ghost word = chars@.subrange(i as int, end as int);
            proof {
                let n = span(rest, Class::Word);
                assert(rest.take(n as int) == word);
                assert(rest.skip(n as int) == chars@.skip(end as int));
                gathered_in_parts(seq![word], words(chars@.skip(end as int)), pick);
                gathered_from_one(word, pick);
            }
            let token = match mode {
                CalcMode::INFIX => None,
                CalcMode::POSTFIX => Some(postfix_token(chars, i, end)),
                CalcMode::RAW => raw_token(chars, i, end),
            };
            if let Some(token) = token {
                tokens.push(token);
                proof {
                    symbols_after_push(earlier, tokens, token);
                    assert(before + (seq![token@] + gathered(
                        words(chars@.skip(end as int)),
                        pick,
                    )) == before.push(token@) + gathered(words(chars@.skip(end as int)), pick));
                }
            } else {
                proof {
                    assert(Seq::<Symbol>::empty() + gathered(
                        words(chars@.skip(end as int)),
                        pick,
                    ) == gathered(words(chars@.skip(end as int)), pick));
                }
            }
            i = end;
        }
    }
    proof {
        assert(tokens.deep_view() + Seq::<Symbol>::empty() == tokens.deep_view());
    }
    tokens
}

/// Scans a postfix expression: words separated by whitespace.
pub fn scan_postfix(input: &str) -> (tokens: Vec<Token>)
    ensures
        tokens.deep_view() == postfix_symbols(input@),
{
    let chars = characters(input);
    word_tokens(&chars, CalcMode::POSTFIX)
}

/// Scans raw input: mnemonics separated by whitespace. A word that is no
/// mnemonic is dropped.
pub fn scan_raw(input: &str) -> (tokens: Vec<Token>)
    ensures
        tokens.deep_view() == raw_symbols(input@),
{
    let chars = characters(input);
    word_tokens(&chars, CalcMode::RAW)
}

/// Scans a text in the given notation.
pub fn scan(input: &str, mode: &CalcMode) -> (tokens: Vec<Token>)
    ensures
        tokens.deep_view() == symbols_of(*mode, input@),
{
    let chars = characters(input);
    scan_characters(&chars, mode)
}

/// Scans a text, given as its characters, in the given notation.
pub fn scan_characters(chars: &Vec<char>, mode: &CalcMode) -> (tokens: Vec<Token>)
    ensures
        tokens.deep_view() == symbols_of(*mode, chars@),
{
    match mode {
        CalcMode::INFIX => infix_tokens(chars),
        CalcMode::POSTFIX => word_tokens(chars, CalcMode::POSTFIX),
        CalcMode::RAW => word_tokens(chars, CalcMode::RAW),
    }
}

} // verus!
