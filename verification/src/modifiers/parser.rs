//! The textual form of modifier trees.
//!
//! An expression is either a string literal in double quotes or a call
//! `name(arg, arg, ...)` of one of the modifiers `combine`, `uppercase`,
//! `lowercase` and `file`, whose arguments are expressions again. Inside a
//! literal a backslash takes the character after it along, so that `\"` does
//! not end the literal; the literal's text is what stands between the quotes,
//! backslashes included. Spaces and tabs may stand before and after every
//! literal, name, parenthesis and comma.
//!
//! For example, the text
//!
//! combine(uppercase(file("firstname.txt")), ".", lowercase(file("country.txt")))
//!
//! is the tree
//!
//! combine
//! |-- uppercase
//! |   |-- file
//! |       |-- "firstname.txt"
//! |-- "."
//! |-- lowercase
//!     |-- file
//!         |-- "country.txt"

pub mod notation;
pub mod processor;

use vstd::prelude::*;
use vstd::string::*;
use processor::Processor;

verus! {

/// The modifiers of the expression language.
#[derive(Debug, Clone, Copy, PartialEq, Eq, Structural)]
pub enum Modifier {
    Combine,
    Uppercase,
    Lowercase,
    File,
}

/// Individual entities that can be encountered when parsing an expression.
#[derive(Debug, PartialEq, Eq)]
pub enum Token {
    Modifier(Modifier, Vec<Token>),
    String(String),
}

/// Why a text is not an expression. Positions count characters from 0.
#[derive(Debug, Clone, PartialEq, Eq)]
pub enum ParserError {
    /// The literal that opens at this position is not closed.
    UnclosedString(usize),
    /// A call of a name that is no modifier.
    UnknownModifier(String),
    /// The text, or the place of an argument, is empty.
    EmptyValue,
    /// A parenthesis has no partner.
    UnmatchesParenthesis,
    /// A character that cannot stand at this position.
    IllegalCharacter(char, usize),
}

/// The mathematical value of a modifier tree.
pub ghost enum Expression {
    Literal(Seq<char>),
    Call(Modifier, Seq<Expression>),
}

/// The mathematical value of a `ParserError`.
pub ghost enum Failure {
    UnclosedString(nat),
    UnknownModifier(Seq<char>),
    EmptyValue,
    UnmatchesParenthesis,
    IllegalCharacter(char, nat),
}

impl View for Token {
    type V = Expression;

    open spec fn view(&self) -> Expression
        decreases self,
    {
        match self {
            Token::String(s) => Expression::Literal(s@),
            Token::Modifier(kind, args) => Expression::Call(
                *kind,
                Seq::new(
                    args.len() as nat,
                    |i: int|
                        if 0 <= i < args.len() {
                            args[i]@
                        } else {
                            Expression::Literal(Seq::empty())
                        },
                ),
            ),
        }
    }
}

impl View for ParserError {
    type V = Failure;

    open spec fn view(&self) -> Failure {
        match self {
            ParserError::UnclosedString(at) => Failure::UnclosedString(*at as nat),
            ParserError::UnknownModifier(name) => Failure::UnknownModifier(name@),
            ParserError::EmptyValue => Failure::EmptyValue,
            ParserError::UnmatchesParenthesis => Failure::UnmatchesParenthesis,
            ParserError::IllegalCharacter(c, at) => Failure::IllegalCharacter(*c, *at as nat),
        }
    }
}

/// Spaces and tabs separate the parts of an expression.
pub open spec fn is_space(c: char) -> bool {
    c == ' ' || c == '\t'
}

/// A name starts with an ASCII letter or an underscore.
pub open spec fn starts_name(c: char) -> bool {
    ('a' <= c && c <= 'z') || ('A' <= c && c <= 'Z') || c == '_'
}

/// A name goes on with ASCII letters, digits and underscores.
pub open spec fn continues_name(c: char) -> bool {
    starts_name(c) || ('0' <= c && c <= '9')
}

/// The number of spaces and tabs that `s` has from position `i` on, up to the
/// first other character.
pub open spec fn spaces(s: Seq<char>, i: int) -> nat
    decreases s.len() - i,
{
    if 0 <= i < s.len() && is_space(s[i]) {
        1 + spaces(s, i + 1)
    } else {
        0
    }
}

/// The length of the name that `s` has at position `i`.
pub open spec fn name_len(s: Seq<char>, i: int) -> nat
    decreases s.len() - i,
{
    if 0 <= i < s.len() && continues_name(s[i]) {
        1 + name_len(s, i + 1)
    } else {
        0
    }
}

/// The length of the literal text that starts at position `i` of `s`, just
/// after the opening quote: the number of characters up to the quote that
/// closes it. `None` if `s` ends before that quote.
pub open spec fn literal_len(s: Seq<char>, i: int) -> Option<nat>
    decreases s.len() - i,
{
    if i < 0 || i >= s.len() {
        None
    } else if s[i] == '"' {
        Some(0)
    } else if s[i] == '\\' {
        if i + 1 < s.len() {
            match literal_len(s, i + 2) {
                Some(n) => Some(n + 2),
                None => None,
            }
        } else {
            None
        }
    } else {
        match literal_len(s, i + 1) {
            Some(n) => Some(n + 1),
            None => None,
        }
    }
}

/// The modifier that a name stands for.
pub open spec fn modifier_named(name: Seq<char>) -> Option<Modifier> {
    if name == "uppercase"@ {
        Some(Modifier::Uppercase)
    } else if name == "lowercase"@ {
        Some(Modifier::Lowercase)
    } else if name == "file"@ {
        Some(Modifier::File)
    } else if name == "combine"@ {
        Some(Modifier::Combine)
    } else {
        None
    }
}

/// Reads one expression from position `i` of `s`: the tree and the number of
/// characters that it takes up, the spaces before it included, or the reason
/// why there is none. `nested` says whether the expression is an argument of a
/// call.
pub open spec fn parse_value(s: Seq<char>, i: int, nested: bool) -> Result<(Expression, nat), Failure>
    decreases s.len() - i, 0nat,
{
    let p = i + spaces(s, i);
    if i < 0 || p >= s.len() {
        Err(
            if nested {
                Failure::UnmatchesParenthesis
            } else {
                Failure::EmptyValue
            },
        )
    } else if s[p] == ')' {
        Err(
            if nested {
                Failure::EmptyValue
            } else {
                Failure::UnmatchesParenthesis
            },
        )
    } else if s[p] == '"' {
        match literal_len(s, p + 1) {
            None => Err(Failure::UnclosedString(p as nat)),
            Some(n) => Ok((Expression::Literal(s.subrange(p + 1, p + 1 + n)), (p + n + 2 - i) as nat)),
        }
    } else if starts_name(s[p]) {
        let e = p + name_len(s, p);
        let name = s.subrange(p, e);
        match modifier_named(name) {
            None => Err(Failure::UnknownModifier(name)),
            Some(kind) => {
                let q = e + spaces(s, e);
                if q >= s.len() {
                    Err(Failure::UnmatchesParenthesis)
                } else if s[q] != '(' {
                    Err(Failure::IllegalCharacter(s[q], q as nat))
                } else {
                    match parse_args(s, q + 1) {
                        Err(f) => Err(f),
                        Ok((args, used)) => Ok((Expression::Call(kind, args), (q + 1 + used - i) as nat)),
                    }
                }
            },
        }
    } else {
        Err(Failure::IllegalCharacter(s[p], p as nat))
    }
}

/// Reads the arguments of a call from position `i` of `s`, just after the
/// opening parenthesis: one expression or more, with commas between them, and
/// the closing parenthesis. Gives the arguments and the number of characters
/// up to and including that parenthesis.
pub open spec fn parse_args(s: Seq<char>, i: int) -> Result<(Seq<Expression>, nat), Failure>
    decreases s.len() - i, 1nat,
{
    match parse_value(s, i, true) {
        Err(f) => Err(f),
        Ok((first, used)) => {
            let q = i + used + spaces(s, i + used);
            if q >= s.len() {
                Err(Failure::UnmatchesParenthesis)
            } else if s[q] == ')' {
                Ok((seq![first], (q + 1 - i) as nat))
            } else if s[q] == ',' {
                match parse_args(s, q + 1) {
                    Err(f) => Err(f),
                    Ok((rest, more)) => Ok((seq![first] + rest, (q + 1 + more - i) as nat)),
                }
            } else {
                Err(Failure::IllegalCharacter(s[q], q as nat))
            }
        },
    }
}

/// What a whole text parses to: the one expression that it holds, or the
/// first reason why it holds none.
pub open spec fn parse_text(s: Seq<char>) -> Result<Expression, Failure> {
    match parse_value(s, 0, false) {
        Err(f) => Err(f),
        Ok((e, used)) => {
            let q = used + spaces(s, used as int);
            if q >= s.len() {
                Ok(e)
            } else if s[q as int] == ')' {
                Err(Failure::UnmatchesParenthesis)
            } else {
                Err(Failure::IllegalCharacter(s[q as int], q))
            }
        },
    }
}

/// Whether every call in `e` has an argument.
pub open spec fn has_arguments(e: Expression) -> bool
    decreases e,
{
    match e {
        Expression::Literal(_) => true,
        Expression::Call(_, args) => args.len() > 0 && forall|i: int|
            0 <= i < args.len() ==> has_arguments(#[trigger] args[i]),
    }
}

/// The spaces from a position on end within the text.
pub proof fn lemma_spaces_bound(s: Seq<char>, i: int)
    requires
        0 <= i <= s.len(),
    ensures
        i + spaces(s, i) <= s.len(),
    decreases s.len() - i,
{
    if i < s.len() && is_space(s[i]) {
        lemma_spaces_bound(s, i + 1);
    }
}

/// A name ends within the text.
pub proof fn lemma_name_bound(s: Seq<char>, i: int)
    requires
        0 <= i <= s.len(),
    ensures
        i + name_len(s, i) <= s.len(),
    decreases s.len() - i,
{
    if i < s.len() && continues_name(s[i]) {
        lemma_name_bound(s, i + 1);
    }
}

/// The quote that closes a literal stands within the text.
pub proof fn lemma_literal_bound(s: Seq<char>, i: int)
    requires
        0 <= i <= s.len(),
        literal_len(s, i) is Some,
    ensures
        i + literal_len(s, i)->0 < s.len(),
        s[i + literal_len(s, i)->0] == '"',
    decreases s.len() - i,
{
    if i < s.len() && s[i] != '"' {
        if s[i] == '\\' {
            lemma_literal_bound(s, i + 2);
        } else {
            lemma_literal_bound(s, i + 1);
        }
    }
}

/// What the parser accepts: an expression takes up at least one character
/// and ends within the text, and every call in it has an argument.
pub proof fn lemma_parse_value(s: Seq<char>, i: int, nested: bool)
    requires
        0 <= i <= s.len(),
    ensures
        parse_value(s, i, nested) matches Ok((e, used)) ==> used > 0 && i + used <= s.len()
            && has_arguments(e),
    decreases s.len() - i, 0nat,
{
    lemma_spaces_bound(s, i);
    let p = i + spaces(s, i);
    if p < s.len() {
        if s[p] == '"' {
            if literal_len(s, p + 1) is Some {
                lemma_literal_bound(s, p + 1);
            }
        } else if s[p] != ')' && starts_name(s[p]) {
            lemma_name_bound(s, p);
            let e = p + name_len(s, p);
            lemma_spaces_bound(s, e);
            let q = e + spaces(s, e);
            if modifier_named(s.subrange(p, e)) is Some && q < s.len() && s[q] == '(' {
                lemma_parse_args(s, q + 1);
            }
        }
    }
}

/// What the parser accepts as arguments: at least one expression, all within
/// the text, and every call in them has an argument.
pub proof fn lemma_parse_args(s: Seq<char>, i: int)
    requires
        0 <= i <= s.len(),
    ensures
        parse_args(s, i) matches Ok((args, used)) ==> used > 0 && i + used <= s.len() && args.len()
            > 0 && forall|k: int| 0 <= k < args.len() ==> has_arguments(#[trigger] args[k]),
    decreases s.len() - i, 1nat,
{
    lemma_parse_value(s, i, true);
    match parse_value(s, i, true) {
        Err(_) => {},
        Ok((first, used)) => {
            lemma_spaces_bound(s, i + used);
            let q = i + used + spaces(s, i + used);
            if q < s.len() && s[q] == ',' {
                lemma_parse_args(s, q + 1);
                match parse_args(s, q + 1) {
                    Err(_) => {},
                    Ok((rest, _)) => {
                        let args = seq![first] + rest;
                        assert forall|k: int| 0 <= k < args.len() implies has_arguments(
                            #[trigger] args[k],
                        ) by {
                            if k > 0 {
                                assert(args[k] == rest[k - 1]);
                            }
                        }
                    },
                }
            }
        },
    }
}

/// In every expression that a text parses to, every call has an argument.
pub proof fn lemma_parsed_calls_have_arguments(s: Seq<char>)
    ensures
        parse_text(s) matches Ok(e) ==> has_arguments(e),
{
    lemma_parse_value(s, 0, false);
}

/// A space before an expression is insignificant: the parser reads the same
/// expression, or finds the same fault, as without the space, and counts the
/// space among the characters that the expression takes up.
pub proof fn lemma_space_before_value(s: Seq<char>, i: int, nested: bool)
    requires
        0 <= i < s.len(),
        is_space(s[i]),
    ensures
        parse_value(s, i, nested) == match parse_value(s, i + 1, nested) {
            Ok((e, used)) => Ok::<(Expression, nat), Failure>((e, used + 1)),
            Err(failure) => Err::<(Expression, nat), Failure>(failure),
        },
{
    assert(spaces(s, i) == 1 + spaces(s, i + 1));
    lemma_spaces_bound(s, i + 1);
}

/// Whether `res` is the parse result `expected`.
pub open spec fn agrees(res: Result<Token, ParserError>, expected: Result<Expression, Failure>) -> bool {
    match res {
        Ok(token) => expected == Ok::<Expression, Failure>(token@),
        Err(error) => expected == Err::<Expression, Failure>(error@),
    }
}

impl Modifier {
    /// The modifier that `s` names.
    pub fn from_str(s: &str) -> (res: Result<Modifier, ParserError>)
        ensures
            match res {
                Ok(kind) => modifier_named(s@) == Some(kind),
                Err(error) => modifier_named(s@) is None && error@ == Failure::UnknownModifier(s@),
            },
    {
        let name = s.to_owned();
        if name == "uppercase".to_owned() {
            Ok(Modifier::Uppercase)
        } else if name == "lowercase".to_owned() {
            Ok(Modifier::Lowercase)
        } else if name == "file".to_owned() {
            Ok(Modifier::File)
        } else if name == "combine".to_owned() {
            Ok(Modifier::Combine)
        } else {
            Err(ParserError::UnknownModifier(name))
        }
    }
}

/// Parses an expression. The whole of `input` must be one expression.
pub fn parse(input: &str) -> (res: Result<Token, ParserError>)
    ensures
        agrees(res, parse_text(input@)),
{
    let mut processor = Processor::new(input);
    match processor.next_token() {
        Err(error) => Err(error),
        Ok(token) => {
            match processor.peek() {
                None => Ok(token),
                Some(')') => Err(ParserError::UnmatchesParenthesis),
                Some(c) => Err(ParserError::IllegalCharacter(c, processor.position())),
            }
        },
    }
}

} // verus!
