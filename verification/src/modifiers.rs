//! Modifier trees: the values of the expression language and what they
//! evaluate to.

pub mod file_cache;
pub mod parser;
pub mod types;

use vstd::prelude::*;
use vstd::string::*;
use crate::text::{lowercase_of, texts, uppercase_of};
use types::{joined, CombineModifier, LowercaseModifier, UppercaseModifier};
use file_cache::{drawn_from, FileCache};
use parser::Expression;
use parser::Modifier as ModifierKind;
use parser::Token;

verus! {

/// Base trait of a modifier. The modifier gets passed all string arguments or
/// the output of nested modifiers, in the order they are specified in the
/// expression.
pub trait Modifier {
    /// What the modifier makes of the texts of its arguments.
    spec fn applied(args: Seq<Seq<char>>) -> Seq<char>;

    fn apply(args: Vec<String>) -> (value: String)
        ensures
            value@ == Self::applied(args.deep_view()),
    ;
}

/// A parsed attribute expression.
pub type ModifierTree = Token;

/// A `file` call is well formed when it has exactly one argument and that
/// argument is a literal. The other modifiers take any arguments, as long as
/// every `file` call below them is well formed.
pub open spec fn well_formed(e: Expression) -> bool
    decreases e,
{
    match e {
        Expression::Literal(_) => true,
        Expression::Call(ModifierKind::File, args) => args.len() == 1 && args[0] is Literal,
        Expression::Call(_, args) => forall|i: int|
            0 <= i < args.len() ==> well_formed(#[trigger] args[i]),
    }
}

/// The paths named by the `file` calls of `e`, from left to right.
pub open spec fn file_refs(e: Expression) -> Seq<Seq<char>>
    decreases e, 0nat,
{
    match e {
        Expression::Literal(_) => Seq::empty(),
        Expression::Call(ModifierKind::File, args) => if args.len() == 1 && args[0] is Literal {
            seq![args[0]->Literal_0]
        } else {
            Seq::empty()
        },
        Expression::Call(_, args) => file_refs_from(args, 0),
    }
}

/// The paths named by the `file` calls of `args[i..]`, from left to right.
pub open spec fn file_refs_from(args: Seq<Expression>, i: int) -> Seq<Seq<char>>
    decreases args, args.len() - i,
{
    if 0 <= i < args.len() {
        file_refs(args[i]) + file_refs_from(args, i + 1)
    } else {
        Seq::empty()
    }
}

/// The value of `e` when its `file` calls, taken from left to right, yield
/// the lines `picks[start]`, `picks[start + 1]`, and so on.
///
/// A literal is its own value. `combine` joins the values of its arguments in
/// their order, with nothing between them. `uppercase` and `lowercase` join
/// their arguments in the same way and convert the whole.
pub open spec fn eval(e: Expression, picks: Seq<Seq<char>>, start: int) -> Seq<char>
    decreases e, 0nat,
{
    match e {
        Expression::Literal(s) => s,
        Expression::Call(ModifierKind::File, _) => if 0 <= start < picks.len() {
            picks[start]
        } else {
            Seq::empty()
        },
        Expression::Call(ModifierKind::Combine, args) => eval_from(args, 0, picks, start),
        Expression::Call(ModifierKind::Uppercase, args) => uppercase_of(
            eval_from(args, 0, picks, start),
        ),
        Expression::Call(ModifierKind::Lowercase, args) => lowercase_of(
            eval_from(args, 0, picks, start),
        ),
    }
}

/// The joined values of `args[i..]`, the first `file` call among them
/// yielding `picks[start]`.
pub open spec fn eval_from(args: Seq<Expression>, i: int, picks: Seq<Seq<char>>, start: int) -> Seq<
    char,
>
    decreases args, args.len() - i,
{
    if 0 <= i < args.len() {
        eval(args[i], picks, start) + eval_from(
            args,
            i + 1,
            picks,
            start + file_refs(args[i]).len(),
        )
    } else {
        Seq::empty()
    }
}

/// Whether `value` is what `e` can evaluate to over `cache`: its value for
/// some choice of one cached line for each of its `file` calls.
pub open spec fn may_yield(
    e: Expression,
    cache: Map<Seq<char>, Seq<Seq<char>>>,
    value: Seq<char>,
) -> bool {
    exists|picks: Seq<Seq<char>>| #[trigger]
        drawn_from(cache, file_refs(e), picks) && value == eval(e, picks, 0)
}

/// Whether `cache` has the lines of every file that `e` names.
pub open spec fn files_loaded(e: Expression, cache: Map<Seq<char>, Seq<Seq<char>>>) -> bool {
    forall|i: int| 0 <= i < file_refs(e).len() ==> cache.contains_key(#[trigger] file_refs(e)[i])
}

impl ModifierTree {
    /// Evaluates the tree: draws a random line from `cache` for each `file`
    /// call, from left to right, and computes the value with those lines.
    pub fn apply(&self, cache: &FileCache) -> (value: String)
        requires
            well_formed(self@),
            files_loaded(self@, cache@),
        ensures
            may_yield(self@, cache@, value@),
            file_refs(self@).len() == 0 ==> value@ == eval(self@, Seq::empty(), 0),
    {
        let files = self.collect_file_arguments();
        let picks = cache.sample(&files);
        proof {
            if file_refs(self@).len() == 0 {
                assert(picks.deep_view() =~= Seq::<Seq<char>>::empty());
            }
        }
        self.evaluate(&picks)
    }

    /// Whether `cache` has the lines of every file that the tree names.
    pub fn has_files_in(&self, cache: &FileCache) -> (loaded: bool)
        requires
            well_formed(self@),
        ensures
            loaded == files_loaded(self@, cache@),
    {
        let files = self.collect_file_arguments();
        let mut i: usize = 0;
        while i < files.len()
            invariant
                0 <= i <= files.len(),
                texts(files@) == file_refs(self@),
                forall|j: int| 0 <= j < i ==> cache@.contains_key(#[trigger] file_refs(self@)[j]),
            decreases files.len() - i,
        {
            assert(texts(files@)[i as int] == files[i as int]@);
            if cache.lines(files[i]).is_none() {
                return false;
            }
            i += 1;
        }
        true
    }

    /// The value of the tree when its `file` calls, from left to right, yield
    /// the lines `picks`.
    pub fn evaluate(&self, picks: &Vec<String>) -> (value: String)
        requires
            well_formed(self@),
            picks.len() == file_refs(self@).len(),
        ensures
            value@ == eval(self@, picks.deep_view(), 0),
    {
        self.apply_with(picks, 0).0
    }

    fn apply_with(&self, picks: &Vec<String>, start: usize) -> (res: (String, usize))
        requires
            well_formed(self@),
            start + file_refs(self@).len() <= picks.len(),
        ensures
            res.0@ == eval(self@, picks.deep_view(), start as int),
            res.1 == start + file_refs(self@).len(),
        decreases self, 1nat,
    {
        match *self {
            Token::String(ref s) => (s.clone(), start),
            Token::Modifier(modifier, ref args) => self.apply_modifier(modifier, args, picks, start),
        }
    }

    fn apply_modifier(
        &self,
        modifier: ModifierKind,
        args: &Vec<ModifierTree>,
        picks: &Vec<String>,
        start: usize,
    ) -> (res: (String, usize))
        requires
            *self == Token::Modifier(modifier, *args),
            well_formed(self@),
            start + file_refs(self@).len() <= picks.len(),
        ensures
            res.0@ == eval(self@, picks.deep_view(), start as int),
            res.1 == start + file_refs(self@).len(),
        decreases self, 0nat,
    {
        let ghost given = self@->Call_1;
        let ghost lines = picks.deep_view();
        if let ModifierKind::File = modifier {
            assert(lines[start as int] == picks[start as int]@);
            return (picks[start].clone(), start + 1);
        }
        let mut parts: Vec<String> = Vec::new();
        let mut next = start;
        let mut i: usize = 0;
        while i < args.len()
            invariant
                0 <= i <= args.len(),
                *self == Token::Modifier(modifier, *args),
                modifier != ModifierKind::File,
                given == self@->Call_1,
                lines == picks.deep_view(),
                given.len() == args.len(),
                forall|j: int| 0 <= j < args.len() ==> given[j] == #[trigger] args[j]@,
                forall|j: int| 0 <= j < args.len() ==> well_formed(#[trigger] given[j]),
                forall|j: int| 0 <= j < args.len() ==> decreases_to!(self => #[trigger] args[j]),
                joined(parts.deep_view()) + eval_from(given, i as int, lines, next as int)
                    == eval_from(given, 0, lines, start as int),
                next + file_refs_from(given, i as int).len() == start + file_refs_from(
                    given,
                    0,
                ).len(),
                start + file_refs_from(given, 0).len() <= picks.len(),
            decreases args.len() - i,
        {
            let (part, after) = args[i].apply_with(picks, next);
            let ghost before = parts.deep_view();
            parts.push(part);
            proof {
                assert(parts.deep_view() =~= before.push(part@));
                assert(parts.deep_view().drop_last() =~= before);
                assert((joined(before) + part@) + eval_from(given, i + 1, lines, after as int)
                    =~= joined(before) + eval_from(given, i as int, lines, next as int));
            }
            next = after;
            i += 1;
        }
        assert(joined(parts.deep_view()) =~= eval_from(given, 0, lines, start as int));
        match modifier {
            ModifierKind::Uppercase => (UppercaseModifier::apply(parts), next),
            ModifierKind::Lowercase => (LowercaseModifier::apply(parts), next),
            _ => (CombineModifier::apply(parts), next),
        }
    }

    /// Whether every `file` call in the tree has exactly one literal argument.
    pub fn is_well_formed(&self) -> (ok: bool)
        ensures
            ok == well_formed(self@),
        decreases self,
    {
        match self {
            Token::String(_) => true,
            Token::Modifier(ModifierKind::File, args) => {
                assert(self@->Call_1.len() == args.len());
                if args.len() == 1 {
                    assert(self@->Call_1[0] == args[0]@);
                    match &args[0] {
                        Token::String(_) => true,
                        Token::Modifier(_, _) => false,
                    }
                } else {
                    false
                }
            },
            Token::Modifier(_, args) => {
                let mut i: usize = 0;
                while i < args.len()
                    invariant
                        0 <= i <= args.len(),
                        self@ is Call,
                        self@->Call_1.len() == args.len(),
                        forall|j: int| 0 <= j < args.len() ==> self@->Call_1[j] == #[trigger] args[j]@,
                        forall|j: int| 0 <= j < i ==> well_formed(#[trigger] self@->Call_1[j]),
                        forall|j: int| 0 <= j < args.len() ==> decreases_to!(self => #[trigger] args[j]),
                    decreases args.len() - i,
                {
                    if !args[i].is_well_formed() {
                        return false;
                    }
                    i += 1;
                }
                true
            },
        }
    }

    /// Collects the arguments of all `file` calls, from left to right.
    pub fn collect_file_arguments(&self) -> (res: Vec<&str>)
        requires
            well_formed(self@),
        ensures
            texts(res@) == file_refs(self@),
        decreases self,
    {
        let mut res: Vec<&str> = Vec::new();
        match self {
            Token::String(_) => {},
            Token::Modifier(ModifierKind::File, args) => {
                assert(self@->Call_1[0] == args[0]@);
                match &args[0] {
                    Token::String(s) => {
                        res.push(s.as_str());
                    },
                    Token::Modifier(_, _) => {},
                }
            },
            Token::Modifier(_, args) => {
                let mut i: usize = 0;
                while i < args.len()
                    invariant
                        0 <= i <= args.len(),
                        self@ is Call,
                        self@->Call_0 != ModifierKind::File,
                        self@->Call_1.len() == args.len(),
                        forall|j: int| 0 <= j < args.len() ==> self@->Call_1[j] == #[trigger] args[j]@,
                        forall|j: int| 0 <= j < args.len() ==> well_formed(#[trigger] self@->Call_1[j]),
                        forall|j: int| 0 <= j < args.len() ==> decreases_to!(self => #[trigger] args[j]),
                        texts(res@) + file_refs_from(self@->Call_1, i as int) == file_refs(self@),
                    decreases args.len() - i,
                {
                    let mut found = args[i].collect_file_arguments();
                    proof {
                        assert(texts(res@ + found@) =~= texts(res@) + texts(found@));
                        assert((texts(res@) + file_refs(args[i as int]@)) + file_refs_from(
                            self@->Call_1,
                            i + 1,
                        ) =~= texts(res@) + file_refs_from(self@->Call_1, i as int));
                    }
                    res.append(&mut found);
                    i += 1;
                }
            },
        }
        proof {
            assert(texts(res@) =~= file_refs(self@));
        }
        res
    }
}

} // verus!
