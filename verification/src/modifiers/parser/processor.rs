//! The cursor that reads expressions off a text, one character at a time.

use vstd::prelude::*;
use vstd::string::*;
use super::{
    continues_name, is_space, literal_len, name_len, parse_args, parse_value, spaces, starts_name,
    Expression, Failure, Modifier, ParserError, Token,
};

verus! {

pub type ProcessorResult = Result<Token, ParserError>;

/// A simple wrapper around a text that can be used to process it into the
/// tokens it holds.
pub struct Processor {
    string: Vec<char>,
    current_char: usize,
}

fn is_space_char(c: char) -> (b: bool)
    ensures
        b == is_space(c),
{
    c == ' ' || c == '\t'
}

fn starts_name_char(c: char) -> (b: bool)
    ensures
        b == starts_name(c),
{
    ('a' <= c && c <= 'z') || ('A' <= c && c <= 'Z') || c == '_'
}

fn continues_name_char(c: char) -> (b: bool)
    ensures
        b == continues_name(c),
{
    starts_name_char(c) || ('0' <= c && c <= '9')
}

impl Processor {
    #[verifier::type_invariant]
    closed spec fn wf(self) -> bool {
        self.current_char <= self.string.len()
    }

    /// The text that the processor reads.
    pub closed spec fn text(&self) -> Seq<char> {
        self.string@
    }

    /// The position of the next character to read.
    pub closed spec fn cursor(&self) -> nat {
        self.current_char as nat
    }

    /// Creates a new processor that operates on the given string.
    pub fn new(string: &str) -> (processor: Self)
        ensures
            processor.text() == string@,
            processor.cursor() == 0,
    {
        let mut chars: Vec<char> = Vec::new();
        for c in it: string.chars()
            invariant
                chars@ == it.seq().take(it.index()),
        {
            chars.push(c);
        }
        Self { string: chars, current_char: 0 }
    }

    /// The position of the next character to read.
    pub fn position(&self) -> (at: usize)
        ensures
            at == self.cursor(),
    {
        self.current_char
    }

    /// Skips spaces and returns the character after them, without reading it.
    /// `None` at the end of the text.
    pub fn peek(&mut self) -> (next: Option<char>)
        ensures
            final(self).text() == old(self).text(),
            final(self).cursor() == old(self).cursor() + spaces(
                old(self).text(),
                old(self).cursor() as int,
            ),
            match next {
                Some(c) => final(self).cursor() < old(self).text().len() && c == old(self).text()[final(self).cursor() as int],
                None => final(self).cursor() >= old(self).text().len(),
            },
    {
        proof {
            use_type_invariant(&*self);
        }
        let after = skip_spaces(&self.string, self.current_char);
        self.current_char = after;
        if after < self.string.len() {
            Some(self.string[after])
        } else {
            None
        }
    }

    /// Reads the next expression off the text and moves behind it. On an
    /// error the position stays where it was.
    pub fn next_token(&mut self) -> (res: ProcessorResult)
        ensures
            final(self).text() == old(self).text(),
            match res {
                Ok(token) => parse_value(old(self).text(), old(self).cursor() as int, false) == Ok::<
                    (Expression, nat),
                    Failure,
                >((token@, (final(self).cursor() - old(self).cursor()) as nat))
                    && final(self).cursor() >= old(self).cursor(),
                Err(error) => parse_value(old(self).text(), old(self).cursor() as int, false) == Err::<
                    (Expression, nat),
                    Failure,
                >(error@) && final(self).cursor() == old(self).cursor(),
            },
    {
        proof {
            use_type_invariant(&*self);
        }
        match read_value(&self.string, self.current_char, false) {
            Ok((token, after)) => {
                self.current_char = after;
                Ok(token)
            },
            Err(error) => Err(error),
        }
    }
}

/// The position of the first character from `i` on that is no space.
fn skip_spaces(s: &Vec<char>, i: usize) -> (after: usize)
    requires
        i <= s.len(),
    ensures
        after == i + spaces(s@, i as int),
        after <= s.len(),
{
    let mut j = i;
    while j < s.len() && is_space_char(s[j])
        invariant
            i <= j <= s.len(),
            j + spaces(s@, j as int) == i + spaces(s@, i as int),
        decreases s.len() - j,
    {
        j += 1;
    }
    j
}

/// Reads the name at position `i`: its text and the position after it.
fn read_name(s: &Vec<char>, i: usize) -> (res: (String, usize))
    requires
        i <= s.len(),
    ensures
        res.1 == i + name_len(s@, i as int),
        res.1 <= s.len(),
        res.0@ == s@.subrange(i as int, res.1 as int),
{
    let mut name = String::new();
    let mut j = i;
    while j < s.len() && continues_name_char(s[j])
        invariant
            i <= j <= s.len(),
            j + name_len(s@, j as int) == i + name_len(s@, i as int),
            name@ == s@.subrange(i as int, j as int),
        decreases s.len() - j,
    {
        name.push(s[j]);
        proof {
            assert(s@.subrange(i as int, j + 1) =~= s@.subrange(i as int, j as int).push(s@[j as int]));
        }
        j += 1;
    }
    (name, j)
}

/// Reads the text of a literal from position `i`, just after the opening
/// quote: the text and the position of the closing quote. `None` if the text
/// ends before that quote.
fn read_literal(s: &Vec<char>, i: usize) -> (res: Option<(String, usize)>)
    requires
        i <= s.len(),
    ensures
        match res {
            Some((text, end)) => literal_len(s@, i as int) == Some((end - i) as nat) && i <= end
                < s.len() && text@ == s@.subrange(i as int, end as int),
            None => literal_len(s@, i as int) is None,
        },
{
    let mut text = String::new();
    let mut j = i;
    loop
        invariant
            i <= j <= s.len(),
            text@ == s@.subrange(i as int, j as int),
            literal_len(s@, i as int) == match literal_len(s@, j as int) {
                Some(n) => Some((n + (j - i)) as nat),
                None => None,
            },
        decreases s.len() - j,
    {
        if j >= s.len() {
            return None;
        }
        let c = s[j];
        if c == '"' {
            return Some((text, j));
        }
        text.push(c);
        proof {
            assert(s@.subrange(i as int, j + 1) =~= s@.subrange(i as int, j as int).push(s@[j as int]));
        }
        if c == '\\' {
            if j + 1 >= s.len() {
                return None;
            }
            text.push(s[j + 1]);
            proof {
                assert(s@.subrange(i as int, j + 2) =~= s@.subrange(i as int, j + 1).push(
                    s@[j + 1],
                ));
            }
            j += 2;
        } else {
            j += 1;
        }
    }
}

/// Reads one expression from position `i`: the token and the position after
/// it.
fn read_value(s: &Vec<char>, i: usize, nested: bool) -> (res: Result<(Token, usize), ParserError>)
    requires
        i <= s.len(),
    ensures
        match res {
            Ok((token, after)) => parse_value(s@, i as int, nested) == Ok::<(Expression, nat), Failure>(
                (token@, (after - i) as nat),
            ) && i <= after <= s.len(),
            Err(error) => parse_value(s@, i as int, nested) == Err::<(Expression, nat), Failure>(
                error@,
            ),
        },
    decreases s.len() - i, 0nat,
{
    let p = skip_spaces(s, i);
    if p >= s.len() {
        return Err(
            if nested {
                ParserError::UnmatchesParenthesis
            } else {
                ParserError::EmptyValue
            },
        );
    }
    let c = s[p];
    if c == ')' {
        Err(
            if nested {
                ParserError::EmptyValue
            } else {
                ParserError::UnmatchesParenthesis
            },
        )
    } else if c == '"' {
        match read_literal(s, p + 1) {
            None => Err(ParserError::UnclosedString(p)),
            Some((text, end)) => Ok((Token::String(text), end + 1)),
        }
    } else if starts_name_char(c) {
        let (name, e) = read_name(s, p);
        match Modifier::from_str(name.as_str()) {
            Err(error) => Err(error),
            Ok(kind) => {
                let q = skip_spaces(s, e);
                if q >= s.len() {
                    Err(ParserError::UnmatchesParenthesis)
                } else if s[q] != '(' {
                    Err(ParserError::IllegalCharacter(s[q], q))
                } else {
                    match read_args(s, q + 1) {
                        Err(error) => Err(error),
                        Ok((args, after)) => {
                            let token = Token::Modifier(kind, args);
                            proof {
                                assert(token@->Call_1 =~= parse_args(s@, q + 1)->Ok_0.0);
                            }
                            Ok((token, after))
                        },
                    }
                }
            },
        }
    } else {
        Err(ParserError::IllegalCharacter(c, p))
    }
}

/// The values of a list of tokens.
spec fn values(tokens: Seq<Token>) -> Seq<Expression> {
    Seq::new(tokens.len(), |i: int| tokens[i]@)
}

/// Reads the arguments of a call from position `i`, just after the opening
/// parenthesis: the tokens and the position after the closing parenthesis.
fn read_args(s: &Vec<char>, i: usize) -> (res: Result<(Vec<Token>, usize), ParserError>)
    requires
        i <= s.len(),
    ensures
        match res {
            Ok((args, after)) => parse_args(s@, i as int) == Ok::<(Seq<Expression>, nat), Failure>(
                (values(args@), (after - i) as nat),
            ) && i <= after <= s.len(),
            Err(error) => parse_args(s@, i as int) == Err::<(Seq<Expression>, nat), Failure>(
                error@,
            ),
        },
    decreases s.len() - i, 1nat,
{
    match read_value(s, i, true) {
        Err(error) => Err(error),
        Ok((first, p)) => {
            let q = skip_spaces(s, p);
            if q >= s.len() {
                Err(ParserError::UnmatchesParenthesis)
            } else if s[q] == ')' {
                let mut args: Vec<Token> = Vec::new();
                args.push(first);
                proof {
                    assert(values(args@) =~= seq![first@]);
                }
                Ok((args, q + 1))
            } else if s[q] == ',' {
                match read_args(s, q + 1) {
                    Err(error) => Err(error),
                    Ok((rest, after)) => {
                        let mut args: Vec<Token> = Vec::new();
                        args.push(first);
                        let mut rest = rest;
                        let ghost tail = values(rest@);
                        args.append(&mut rest);
                        proof {
                            assert(values(args@) =~= seq![first@] + tail);
                        }
                        Ok((args, after))
                    },
                }
            } else {
                Err(ParserError::IllegalCharacter(s[q], q))
            }
        },
    }
}

} // verus!
