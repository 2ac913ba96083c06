//! The plain notation of a tree, and that the parser reads it back.

use vstd::prelude::*;
use super::{
    continues_name, literal_len, modifier_named, name_len, parse_args, parse_text,
    parse_value, spaces, starts_name, Expression, Failure, Modifier,
};

verus! {

/// The name of a modifier in an expression.
pub open spec fn name_of(kind: Modifier) -> Seq<char> {
    match kind {
        Modifier::Combine => "combine"@,
        Modifier::Uppercase => "uppercase"@,
        Modifier::Lowercase => "lowercase"@,
        Modifier::File => "file"@,
    }
}

/// Whether `s`, read from position `i` on, can stand between quotes: no
/// quote in it stands without a backslash before it, and it does not end
/// with a backslash that takes the closing quote along.
pub open spec fn fits_in_quotes(s: Seq<char>, i: int) -> bool
    decreases s.len() - i,
{
    if i < 0 || i >= s.len() {
        i == s.len()
    } else if s[i] == '"' {
        false
    } else if s[i] == '\\' {
        i + 1 < s.len() && fits_in_quotes(s, i + 2)
    } else {
        fits_in_quotes(s, i + 1)
    }
}

/// Whether `e` can be written as an expression: every literal fits in
/// quotes and every call has an argument.
pub open spec fn writable(e: Expression) -> bool
    decreases e,
{
    match e {
        Expression::Literal(s) => fits_in_quotes(s, 0),
        Expression::Call(_, args) => args.len() > 0 && forall|i: int|
            0 <= i < args.len() ==> writable(#[trigger] args[i]),
    }
}

/// The plain notation of `e`, without any space.
pub open spec fn notation(e: Expression) -> Seq<char>
    decreases e, 0nat,
{
    match e {
        Expression::Literal(s) => seq!['"'] + s + seq!['"'],
        Expression::Call(kind, args) => name_of(kind) + seq!['('] + notation_from(args, 0) + seq![
            ')',
        ],
    }
}

/// The plain notation of `args[i..]`, with commas between them.
pub open spec fn notation_from(args: Seq<Expression>, i: int) -> Seq<char>
    decreases args, args.len() - i,
{
    if i < 0 || i >= args.len() {
        Seq::empty()
    } else if i + 1 == args.len() {
        notation(args[i])
    } else {
        notation(args[i]) + seq![','] + notation_from(args, i + 1)
    }
}

/// Whether `t` holds `part` at position `i`.
pub open spec fn holds_at(t: Seq<char>, i: int, part: Seq<char>) -> bool {
    &&& 0 <= i
    &&& i + part.len() <= t.len()
    &&& forall|j: int| 0 <= j < part.len() ==> t[i + j] == #[trigger] part[j]
}

/// A text that holds two parts one after the other holds each of them.
proof fn lemma_holds_both(t: Seq<char>, i: int, a: Seq<char>, b: Seq<char>)
    requires
        holds_at(t, i, a + b),
    ensures
        holds_at(t, i, a),
        holds_at(t, i + a.len(), b),
{
    assert forall|j: int| 0 <= j < a.len() implies t[i + j] == #[trigger] a[j] by {
        assert((a + b)[j] == a[j]);
    }
    assert forall|j: int| 0 <= j < b.len() implies t[i + a.len() + j] == #[trigger] b[j] by {
        assert((a + b)[a.len() + j] == b[j]);
    }
}

/// The name that runs from `i` over `n` characters is `n` long.
proof fn lemma_name_run(t: Seq<char>, i: int, n: nat)
    requires
        0 <= i,
        i + n <= t.len(),
        forall|j: int| 0 <= j < n ==> continues_name(#[trigger] t[i + j]),
        i + n == t.len() || !continues_name(t[i + n]),
    ensures
        name_len(t, i) == n,
    decreases n,
{
    if n > 0 {
        assert(continues_name(t[i + 0]));
        assert forall|j: int| 0 <= j < n - 1 implies continues_name(#[trigger] t[i + 1 + j]) by {
            assert(continues_name(t[i + (j + 1)]));
        }
        lemma_name_run(t, i + 1, (n - 1) as nat);
    }
}

/// What the names are made of: letters alone, and each names its modifier
/// and no other.
pub proof fn lemma_names(kind: Modifier)
    ensures
        name_of(kind).len() > 0,
        starts_name(name_of(kind)[0]),
        forall|j: int| 0 <= j < name_of(kind).len() ==> continues_name(#[trigger] name_of(kind)[j]),
        modifier_named(name_of(kind)) == Some(kind),
{
    reveal_strlit("combine");
    reveal_strlit("uppercase");
    reveal_strlit("lowercase");
    reveal_strlit("file");
    assert("combine"@[0] == 'c');
    assert("uppercase"@[0] == 'u');
    assert("lowercase"@[0] == 'l');
    assert("file"@[0] == 'f');
}

/// The text of a literal in quotes is read up to the closing quote.
proof fn lemma_reads_literal(t: Seq<char>, start: int, s: Seq<char>, j: int)
    requires
        holds_at(t, start, s + seq!['"']),
        0 <= j <= s.len(),
        fits_in_quotes(s, j),
    ensures
        literal_len(t, start + j) == Some((s.len() - j) as nat),
    decreases s.len() - j,
{
    let whole = s + seq!['"'];
    assert(t[start + j] == whole[j]);
    if j == s.len() {
    } else {
        assert(whole[j] == s[j]);
        if s[j] == '\\' {
            lemma_reads_literal(t, start, s, j + 2);
        } else {
            lemma_reads_literal(t, start, s, j + 1);
        }
    }
}

/// Where a text holds the notation of a writable tree, the parser reads
/// that tree there, and nothing beyond the notation.
pub proof fn lemma_reads_notation(t: Seq<char>, i: int, e: Expression, nested: bool)
    requires
        writable(e),
        holds_at(t, i, notation(e)),
    ensures
        parse_value(t, i, nested) == Ok::<(Expression, nat), Failure>((e, notation(e).len())),
    decreases e, 0nat,
{
    match e {
        Expression::Literal(s) => {
            let text = seq!['"'] + s + seq!['"'];
            assert(text[0] == '"');
            assert(t[i + 0] == text[0]);
            assert(spaces(t, i) == 0);
            assert(text =~= seq!['"'] + (s + seq!['"']));
            lemma_holds_both(t, i, seq!['"'], s + seq!['"']);
            lemma_reads_literal(t, i + 1, s, 0);
            lemma_holds_both(t, i + 1, s, seq!['"']);
            assert(t.subrange(i + 1, i + 1 + s.len()) =~= s);
        },
        Expression::Call(kind, args) => {
            let name = name_of(kind);
            let inner = notation_from(args, 0);
            let text = name + seq!['('] + inner + seq![')'];
            lemma_names(kind);
            assert(text =~= name + (seq!['('] + (inner + seq![')'])));
            lemma_holds_both(t, i, name, seq!['('] + (inner + seq![')']));
            let e1 = i + name.len();
            lemma_holds_both(t, e1, seq!['('], inner + seq![')']);
            assert(seq!['('][0] == '(');
            assert(t[e1 + 0] == '(');
            assert(t[i + 0] == name[0]);
            assert(spaces(t, i) == 0);
            assert forall|j: int| 0 <= j < name.len() implies continues_name(#[trigger] t[i + j]) by {
                assert(t[i + j] == name[j]);
            }
            lemma_name_run(t, i, name.len());
            assert(t.subrange(i, e1) =~= name);
            assert(spaces(t, e1) == 0);
            lemma_reads_arguments(t, e1 + 1, args, 0);
            assert(args.subrange(0, args.len() as int) =~= args);
        },
    }
}

/// Where a text holds the notation of some last arguments of a call and
/// the closing parenthesis, the parser reads those arguments there.
pub proof fn lemma_reads_arguments(t: Seq<char>, i: int, args: Seq<Expression>, k: int)
    requires
        0 <= k < args.len(),
        forall|j: int| 0 <= j < args.len() ==> writable(#[trigger] args[j]),
        holds_at(t, i, notation_from(args, k) + seq![')']),
    ensures
        parse_args(t, i) == Ok::<(Seq<Expression>, nat), Failure>(
            (args.subrange(k, args.len() as int), (notation_from(args, k).len() + 1) as nat),
        ),
    decreases args, args.len() - k,
{
    let first = notation(args[k]);
    if k + 1 == args.len() {
        lemma_holds_both(t, i, first, seq![')']);
        lemma_reads_notation(t, i, args[k], true);
        let q = i + first.len();
        assert(seq![')'][0] == ')');
        assert(t[q + 0] == ')');
        assert(spaces(t, q) == 0);
        assert(args.subrange(k, args.len() as int) =~= seq![args[k]]);
    } else {
        let rest = notation_from(args, k + 1);
        assert(notation_from(args, k) + seq![')'] =~= first + (seq![','] + (rest + seq![')'])));
        lemma_holds_both(t, i, first, seq![','] + (rest + seq![')']));
        lemma_reads_notation(t, i, args[k], true);
        let q = i + first.len();
        lemma_holds_both(t, q, seq![','], rest + seq![')']);
        assert(seq![','][0] == ',');
        assert(t[q + 0] == ',');
        assert(spaces(t, q) == 0);
        lemma_reads_arguments(t, q + 1, args, k + 1);
        assert(seq![args[k]] + args.subrange(k + 1, args.len() as int) =~= args.subrange(
            k,
            args.len() as int,
        ));
    }
}

/// Every writable tree is the parse of its plain notation.
pub proof fn lemma_parse_reads_notation(e: Expression)
    requires
        writable(e),
    ensures
        parse_text(notation(e)) == Ok::<Expression, Failure>(e),
{
    let t = notation(e);
    assert(holds_at(t, 0, t));
    lemma_reads_notation(t, 0, e, false);
    assert(spaces(t, t.len() as int) == 0);
}

} // verus!
