//! The display form of expressions, and parsing of that form.
//!
//! The display of an expression is text that re-parses to a structurally
//! equal expression: normal expressions as `head[element, element, ...]`,
//! strings in double quotes with `"` and `\` escaped by a backslash, symbols
//! as their full qualified name, integers in decimal, and reals as the
//! decimal value of their IEEE 754 bit pattern followed by a dot, an exact
//! representation of the stored bits.

use vstd::prelude::*;
use vstd::string::StringExecFns;
use vstd::string::StrSliceExecFns;

use crate::symbol::Symbol;
use crate::{wf_expr, Expr, ExprKind, SpecExpr};

verus! {

/// The decimal digit character for a value below ten.
pub open spec fn digit_char(d: nat) -> char {
    if d == 0 {
        '0'
    } else if d == 1 {
        '1'
    } else if d == 2 {
        '2'
    } else if d == 3 {
        '3'
    } else if d == 4 {
        '4'
    } else if d == 5 {
        '5'
    } else if d == 6 {
        '6'
    } else if d == 7 {
        '7'
    } else if d == 8 {
        '8'
    } else {
        '9'
    }
}

/// The decimal digits of a natural number, most significant first, with no
/// leading zero except for zero itself.
pub open spec fn dec_digits(n: nat) -> Seq<char>
    decreases n,
{
    if n < 10 {
        seq![digit_char(n)]
    } else {
        dec_digits(n / 10).push(digit_char(n % 10))
    }
}

/// The display of a signed integer: its decimal digits, with a leading
/// minus sign when negative.
pub open spec fn display_int(v: int) -> Seq<char> {
    if v >= 0 {
        dec_digits(v as nat)
    } else {
        seq!['-'] + dec_digits((-v) as nat)
    }
}

/// The display of a real number: the decimal value of its bit pattern
/// followed by a dot. This is exact: it reconstructs the stored bits.
pub open spec fn display_real_bits(bits: u64) -> Seq<char> {
    dec_digits(bits as nat).push('.')
}

/// How one character of a string literal is written: `"` and `\` get a
/// leading backslash, everything else stands for itself.
pub open spec fn escape_char(c: char) -> Seq<char> {
    if c == '"' || c == '\\' {
        seq!['\\', c]
    } else {
        seq![c]
    }
}

/// The escaped body of a string literal.
pub open spec fn escape_text(s: Seq<char>) -> Seq<char>
    decreases s.len(),
{
    if s.len() == 0 {
        Seq::empty()
    } else {
        escape_text(s.drop_last()) + escape_char(s.last())
    }
}

/// The display of an expression.
pub open spec fn display_expr(e: SpecExpr) -> Seq<char>
    decreases e,
{
    match e {
        SpecExpr::Integer(i) => display_int(i as int),
        SpecExpr::Real(bits) => display_real_bits(bits),
        SpecExpr::Text(s) => seq!['"'] + escape_text(s) + seq!['"'],
        SpecExpr::Symbol(s) => s,
        SpecExpr::Normal(head, elements) => display_expr(*head) + seq!['['] + display_elements(
            elements,
        ) + seq![']'],
    }
}

/// The display of the elements of a normal expression, separated by a comma
/// and one space.
pub open spec fn display_elements(elements: Seq<SpecExpr>) -> Seq<char>
    decreases elements,
{
    if elements.len() == 0 {
        Seq::empty()
    } else if elements.len() == 1 {
        display_expr(elements[0])
    } else {
        display_elements(elements.drop_last()) + seq![',', ' '] + display_expr(elements.last())
    }
}

/// Every character of a decimal digit string is a digit, and the string is
/// never empty.
proof fn lemma_dec_digits_chars(n: nat)
    ensures
        dec_digits(n).len() >= 1,
        forall|i: int|
            0 <= i < dec_digits(n).len() ==> '0' <= #[trigger] dec_digits(n)[i] && dec_digits(
                n,
            )[i] <= '9',
    decreases n,
{
    if n < 10 {
    } else {
        lemma_dec_digits_chars(n / 10);
        assert forall|i: int|
            0 <= i < dec_digits(n).len() implies '0' <= #[trigger] dec_digits(n)[i] && dec_digits(
            n,
        )[i] <= '9' by {
            if i < dec_digits(n).len() - 1 {
                assert(dec_digits(n)[i] == dec_digits(n / 10)[i]);
            }
        }
    }
}

/// Distinct natural numbers have distinct decimal digit strings.
proof fn lemma_dec_digits_injective(m: nat, n: nat)
    requires
        dec_digits(m) == dec_digits(n),
    ensures
        m == n,
    decreases m,
{
    lemma_dec_digits_chars(m / 10);
    lemma_dec_digits_chars(n / 10);
    if m < 10 && n < 10 {
        assert(dec_digits(m) == seq![digit_char(m)]);
        assert(dec_digits(n) == seq![digit_char(n)]);
        assert(dec_digits(m)[0] == digit_char(m));
        assert(dec_digits(n)[0] == digit_char(n));
        assert(digit_char(m) == digit_char(n));
        assert(m == n);
    } else if m < 10 {
        assert(dec_digits(m).len() == 1);
        assert(dec_digits(n).len() >= 2);
        assert(false);
    } else if n < 10 {
        assert(dec_digits(n).len() == 1);
        assert(dec_digits(m).len() >= 2);
        assert(false);
    } else {
        assert(dec_digits(m) == dec_digits(m / 10).push(digit_char(m % 10)));
        assert(dec_digits(n) == dec_digits(n / 10).push(digit_char(n % 10)));
        assert(dec_digits(m).last() == digit_char(m % 10));
        assert(dec_digits(n).last() == digit_char(n % 10));
        assert(digit_char(m % 10) == digit_char(n % 10));
        assert(m % 10 == n % 10) by {
            if m % 10 != n % 10 {
                assert(!(digit_char(m % 10) == digit_char(n % 10)));
            }
        }
        assert(dec_digits(m / 10) =~= dec_digits(m).drop_last());
        assert(dec_digits(n / 10) =~= dec_digits(n).drop_last());
        lemma_dec_digits_injective(m / 10, n / 10);
        assert(m == 10 * (m / 10) + m % 10);
        assert(n == 10 * (n / 10) + n % 10);
    }
}

/// The first and last characters of the display of each leaf shape: a string
/// opens with a quote, a number opens with a digit or a minus sign, a symbol
/// opens with a name-start character; an integer closes with a digit, a real
/// with a dot, a string with a quote, a symbol with a name character, and a
/// normal expression with a closing bracket.
proof fn lemma_display_ends(e: SpecExpr)
    requires
        wf_expr(e),
    ensures
        display_expr(e).len() >= 1,
        e is Integer ==> ('0' <= display_expr(e).last() && display_expr(e).last() <= '9'),
        e is Integer ==> (display_expr(e)[0] == '-' || ('0' <= display_expr(e)[0] && display_expr(
            e,
        )[0] <= '9')),
        e is Real ==> display_expr(e).last() == '.' && ('0' <= display_expr(e)[0] && display_expr(
            e,
        )[0] <= '9'),
        e is Text ==> display_expr(e)[0] == '"' && display_expr(e).last() == '"',
        e is Symbol ==> crate::grammar::is_name_start(display_expr(e)[0])
            && crate::grammar::is_name_char(display_expr(e).last()),
        e is Normal ==> display_expr(e).last() == ']',
{
    match e {
        SpecExpr::Integer(i) => {
            if i >= 0 {
                lemma_dec_digits_chars(i as nat);
            } else {
                lemma_dec_digits_chars((-(i as int)) as nat);
            }
        },
        SpecExpr::Real(bits) => {
            lemma_dec_digits_chars(bits as nat);
        },
        SpecExpr::Text(s) => {
        },
        SpecExpr::Symbol(s) => {
            crate::grammar::lemma_symbol_recombine(s);
            let context_part = crate::grammar::symbol_context_part(s);
            let name_part = crate::grammar::symbol_name_part(s);
            assert(s[0] == context_part[0]);
            assert(crate::grammar::is_name_start(context_part[0]));
            assert(s.last() == name_part.last());
            if name_part.len() == 1 {
                assert(crate::grammar::is_name_start(name_part[0]));
            } else {
                assert(crate::grammar::is_name_char(name_part[name_part.len() - 1]));
            }
        },
        SpecExpr::Normal(head, elements) => {
        },
    }
}

/// The innermost head of an expression: the expression itself unless it is
/// a normal expression.
spec fn atom_of(e: SpecExpr) -> SpecExpr
    decreases e,
{
    match e {
        SpecExpr::Normal(head, _) => atom_of(*head),
        _ => e,
    }
}

/// The bracket groups applied to the innermost head, outermost last.
spec fn groups_of(e: SpecExpr) -> Seq<Seq<SpecExpr>>
    decreases e,
{
    match e {
        SpecExpr::Normal(head, elements) => groups_of(*head).push(elements),
        _ => Seq::empty(),
    }
}

/// The text of a list of bracket groups.
spec fn group_text(gs: Seq<Seq<SpecExpr>>) -> Seq<char>
    decreases gs,
{
    if gs.len() == 0 {
        Seq::empty()
    } else {
        group_text(gs.drop_last()) + seq!['['] + display_elements(gs.last()) + seq![']']
    }
}

/// An expression displays as its innermost head followed by its bracket
/// groups; the innermost head is not a normal expression and is well-formed,
/// and so is every element of every group.
proof fn lemma_display_decomposes(e: SpecExpr)
    requires
        wf_expr(e),
    ensures
        display_expr(e) == display_expr(atom_of(e)) + group_text(groups_of(e)),
        !(atom_of(e) is Normal),
        wf_expr(atom_of(e)),
        forall|g: int, k: int|
            0 <= g < groups_of(e).len() && 0 <= k < groups_of(e)[g].len() ==> wf_expr(
                #[trigger] groups_of(e)[g][k],
            ),
    decreases e,
{
    match e {
        SpecExpr::Normal(head, elements) => {
            lemma_display_decomposes(*head);
            let gs = groups_of(*head);
            assert(gs.push(elements).drop_last() =~= gs);
            assert(gs.push(elements).last() == elements);
            assert(group_text(gs.push(elements)) == group_text(gs) + seq!['['] + display_elements(
                elements,
            ) + seq![']']);
            assert(display_expr(e) =~= display_expr(atom_of(e)) + group_text(groups_of(e)));
            assert forall|g: int, k: int|
                0 <= g < groups_of(e).len() && 0 <= k < groups_of(e)[g].len() implies wf_expr(
                #[trigger] groups_of(e)[g][k],
            ) by {
                if g < gs.len() {
                    assert(groups_of(e)[g] == gs[g]);
                } else {
                    assert(groups_of(e)[g] == elements);
                }
            }
        },
        _ => {
            assert(display_expr(atom_of(e)) + group_text(groups_of(e)) =~= display_expr(e));
        },
    }
}

/// An expression with the same innermost head and the same bracket groups as
/// another is that other expression.
proof fn lemma_recompose(a: SpecExpr, b: SpecExpr)
    requires
        atom_of(a) == atom_of(b),
        groups_of(a) == groups_of(b),
    ensures
        a == b,
    decreases a,
{
    match a {
        SpecExpr::Normal(ha, ea) => {
            assert(groups_of(a).len() >= 1);
            match b {
                SpecExpr::Normal(hb, eb) => {
                    assert(groups_of(*ha).push(ea) == groups_of(*hb).push(eb));
                    assert(groups_of(*ha) =~= groups_of(*ha).push(ea).drop_last());
                    assert(groups_of(*hb) =~= groups_of(*hb).push(eb).drop_last());
                    assert(ea == groups_of(*ha).push(ea).last());
                    assert(eb == groups_of(*hb).push(eb).last());
                    lemma_recompose(*ha, *hb);
                },
                _ => {
                    assert(groups_of(b).len() == 0);
                },
            }
        },
        _ => {
            match b {
                SpecExpr::Normal(hb, eb) => {
                    assert(groups_of(b).len() >= 1);
                    assert(groups_of(a).len() == 0);
                },
                _ => {
                    assert(atom_of(a) == a);
                    assert(atom_of(b) == b);
                },
            }
        },
    }
}

/// Two runs of characters of one class, each followed by text that does not
/// begin with that class, are equal runs followed by equal texts when their
/// concatenations agree.
proof fn lemma_maximal_munch(
    class: spec_fn(char) -> bool,
    d1: Seq<char>,
    d2: Seq<char>,
    u: Seq<char>,
    v: Seq<char>,
)
    requires
        forall|i: int| 0 <= i < d1.len() ==> class(#[trigger] d1[i]),
        forall|i: int| 0 <= i < d2.len() ==> class(#[trigger] d2[i]),
        u.len() == 0 || !class(u[0]),
        v.len() == 0 || !class(v[0]),
        d1 + u == d2 + v,
    ensures
        d1 == d2,
        u == v,
{
    assert((d1 + u).len() == d1.len() + u.len());
    assert((d2 + v).len() == d2.len() + v.len());
    if d1.len() < d2.len() {
        assert(u.len() > v.len());
        assert(u[0] == (d1 + u)[d1.len() as int]);
        assert((d2 + v)[d1.len() as int] == d2[d1.len() as int]);
        assert(false);
    } else if d2.len() < d1.len() {
        assert(v.len() > u.len());
        assert(v[0] == (d2 + v)[d2.len() as int]);
        assert((d1 + u)[d2.len() as int] == d1[d2.len() as int]);
        assert(false);
    } else {
        assert(d1 =~= (d1 + u).take(d1.len() as int));
        assert(d2 =~= (d2 + v).take(d2.len() as int));
        assert(u =~= (d1 + u).skip(d1.len() as int));
        assert(v =~= (d2 + v).skip(d2.len() as int));
    }
}

/// Text that may follow a complete expression: nothing, or a separator, or a
/// closing bracket.
spec fn follows_expr(u: Seq<char>) -> bool {
    u.len() == 0 || u[0] == ',' || u[0] == ']'
}

/// Text that may follow a complete innermost head: what may follow an
/// expression, or an opening bracket.
spec fn follows_atom(u: Seq<char>) -> bool {
    follows_expr(u) || (u.len() > 0 && u[0] == '[')
}

/// A character that may stand in symbol text.
spec fn is_token_char(c: char) -> bool {
    crate::grammar::is_name_char(c) || c == '`'
}

/// Every character of valid symbol text is a token character.
proof fn lemma_symbol_token_chars(s: Seq<char>)
    requires
        crate::grammar::is_symbol(s),
    ensures
        forall|i: int| 0 <= i < s.len() ==> is_token_char(#[trigger] s[i]),
{
    crate::grammar::lemma_symbol_recombine(s);
    let context_part = crate::grammar::symbol_context_part(s);
    let name_part = crate::grammar::symbol_name_part(s);
    assert forall|i: int| 0 <= i < s.len() implies is_token_char(#[trigger] s[i]) by {
        if i < context_part.len() {
            assert(s[i] == context_part[i]);
            if !crate::grammar::is_delim(context_part[i]) {
                assert(crate::grammar::is_name_char(context_part[i]));
            }
        } else {
            assert(s[i] == name_part[i - context_part.len()]);
            if i - context_part.len() == 0 {
                assert(crate::grammar::is_name_start(name_part[0]));
            } else {
                assert(crate::grammar::is_name_char(name_part[i - context_part.len()]));
            }
        }
    }
}

/// The escaped body of a text, read from the front: the escape of its first
/// character, then the escaped rest.
proof fn lemma_escape_front(s: Seq<char>)
    requires
        s.len() > 0,
    ensures
        escape_text(s) == escape_char(s[0]) + escape_text(s.skip(1)),
    decreases s.len(),
{
    if s.len() == 1 {
        assert(s.drop_last() =~= Seq::<char>::empty());
        assert(s.skip(1) =~= Seq::<char>::empty());
        assert(escape_text(s) =~= escape_char(s[0]) + escape_text(s.skip(1)));
    } else {
        lemma_escape_front(s.drop_last());
        assert(s.drop_last()[0] == s[0]);
        assert(s.drop_last().skip(1) =~= s.skip(1).drop_last());
        assert(s.skip(1).last() == s.last());
        assert(escape_text(s.skip(1)) == escape_text(s.skip(1).drop_last()) + escape_char(
            s.skip(1).last(),
        ));
        assert(escape_text(s) =~= escape_char(s[0]) + escape_text(s.skip(1)));
    }
}

/// An escaped body, a closing quote and a remainder determine the text and
/// the remainder.
proof fn lemma_escaped_tail(t1: Seq<char>, t2: Seq<char>, u: Seq<char>, v: Seq<char>)
    requires
        escape_text(t1) + seq!['"'] + u == escape_text(t2) + seq!['"'] + v,
    ensures
        t1 == t2,
        u == v,
    decreases t1.len(),
{
    let a = escape_text(t1) + seq!['"'] + u;
    let b = escape_text(t2) + seq!['"'] + v;
    if t1.len() == 0 && t2.len() == 0 {
        assert(u =~= a.skip(1));
        assert(v =~= b.skip(1));
        assert(t1 =~= t2);
    } else if t1.len() == 0 {
        lemma_escape_front(t2);
        assert(a[0] == '"');
        assert(b[0] == escape_char(t2[0])[0]);
        assert(false);
    } else if t2.len() == 0 {
        lemma_escape_front(t1);
        assert(b[0] == '"');
        assert(a[0] == escape_char(t1[0])[0]);
        assert(false);
    } else {
        lemma_escape_front(t1);
        lemma_escape_front(t2);
        let c1 = t1[0];
        let c2 = t2[0];
        assert(a[0] == escape_char(c1)[0]);
        assert(b[0] == escape_char(c2)[0]);
        if c1 == '"' || c1 == '\\' {
            assert(a[0] == '\\');
            assert(c2 == '"' || c2 == '\\');
            assert(a[1] == escape_char(c1)[1]);
            assert(b[1] == escape_char(c2)[1]);
            assert(c1 == c2);
            assert(escape_text(t1.skip(1)) + seq!['"'] + u =~= a.skip(2));
            assert(escape_text(t2.skip(1)) + seq!['"'] + v =~= b.skip(2));
        } else {
            assert(a[0] == c1);
            if c2 == '"' || c2 == '\\' {
                assert(b[0] == '\\');
                assert(false);
            }
            assert(b[0] == c2);
            assert(c1 == c2);
            assert(escape_text(t1.skip(1)) + seq!['"'] + u =~= a.skip(1));
            assert(escape_text(t2.skip(1)) + seq!['"'] + v =~= b.skip(1));
        }
        lemma_escaped_tail(t1.skip(1), t2.skip(1), u, v);
        assert(t1 =~= seq![c1] + t1.skip(1));
        assert(t2 =~= seq![c2] + t2.skip(1));
    }
}

/// The text of a non-empty list of bracket groups starts with an opening
/// bracket.
proof fn lemma_group_text_front_char(gs: Seq<Seq<SpecExpr>>)
    requires
        gs.len() > 0,
    ensures
        group_text(gs).len() > 0,
        group_text(gs)[0] == '[',
    decreases gs.len(),
{
    if gs.len() == 1 {
    } else {
        lemma_group_text_front_char(gs.drop_last());
        assert(group_text(gs)[0] == group_text(gs.drop_last())[0]);
    }
}

/// The text of a non-empty list of bracket groups, read from the front: the
/// first group in brackets, then the rest.
proof fn lemma_group_text_split(gs: Seq<Seq<SpecExpr>>)
    requires
        gs.len() > 0,
    ensures
        group_text(gs) == seq!['['] + display_elements(gs[0]) + seq![']'] + group_text(gs.skip(1)),
    decreases gs.len(),
{
    if gs.len() == 1 {
        assert(gs.drop_last() =~= Seq::<Seq<SpecExpr>>::empty());
        assert(gs.skip(1) =~= Seq::<Seq<SpecExpr>>::empty());
        assert(gs.last() == gs[0]);
        assert(group_text(gs) =~= seq!['['] + display_elements(gs[0]) + seq![']'] + group_text(
            gs.skip(1),
        ));
    } else {
        lemma_group_text_split(gs.drop_last());
        assert(gs.drop_last()[0] == gs[0]);
        assert(gs.drop_last().skip(1) =~= gs.skip(1).drop_last());
        assert(gs.skip(1).last() == gs.last());
        assert(group_text(gs.skip(1)) == group_text(gs.skip(1).drop_last()) + seq!['[']
            + display_elements(gs.skip(1).last()) + seq![']']);
        assert(group_text(gs) =~= seq!['['] + display_elements(gs[0]) + seq![']'] + group_text(
            gs.skip(1),
        ));
    }
}

/// The display of a non-empty element list, read from the front: the first
/// element, then a separator and the rest when more elements follow.
proof fn lemma_display_elements_front(elements: Seq<SpecExpr>)
    requires
        elements.len() > 0,
    ensures
        elements.len() == 1 ==> display_elements(elements) == display_expr(elements[0]),
        elements.len() > 1 ==> display_elements(elements) == display_expr(elements[0]) + seq![
            ',',
            ' ',
        ] + display_elements(elements.skip(1)),
    decreases elements.len(),
{
    if elements.len() == 1 {
    } else if elements.len() == 2 {
        assert(elements.drop_last() =~= seq![elements[0]]);
        assert(elements.skip(1) =~= seq![elements[1]]);
        assert(display_elements(elements.drop_last()) == display_expr(elements[0]));
        assert(display_elements(elements.skip(1)) == display_expr(elements[1]));
        assert(display_elements(elements) =~= display_expr(elements[0]) + seq![',', ' ']
            + display_elements(elements.skip(1)));
    } else {
        lemma_display_elements_front(elements.drop_last());
        assert(elements.drop_last()[0] == elements[0]);
        assert(elements.drop_last().skip(1) =~= elements.skip(1).drop_last());
        assert(elements.skip(1).last() == elements.last());
        assert(display_elements(elements.skip(1)) == display_elements(elements.skip(1).drop_last())
            + seq![',', ' '] + display_expr(elements.skip(1).last()));
        assert(display_elements(elements) =~= display_expr(elements[0]) + seq![',', ' ']
            + display_elements(elements.skip(1)));
    }
}

/// The display of a well-formed expression is never empty and never starts
/// with a separator, a bracket, or a space.
proof fn lemma_display_first_char(e: SpecExpr)
    requires
        wf_expr(e),
    ensures
        display_expr(e).len() >= 1,
        display_expr(e)[0] != ',',
        display_expr(e)[0] != ']',
        display_expr(e)[0] != '[',
        display_expr(e)[0] != ' ',
    decreases e,
{
    lemma_display_decomposes(e);
    let atom = atom_of(e);
    lemma_display_ends(atom);
    assert(display_expr(e)[0] == display_expr(atom)[0]);
    match atom {
        SpecExpr::Integer(_) => {},
        SpecExpr::Real(_) => {},
        SpecExpr::Text(_) => {},
        SpecExpr::Symbol(_) => {},
        SpecExpr::Normal(_, _) => {},
    }
}

/// Two well-formed innermost heads followed by head-compatible text are the
/// same head followed by the same text when their concatenations agree.
proof fn lemma_atoms_unambiguous(x: SpecExpr, y: SpecExpr, u: Seq<char>, v: Seq<char>)
    requires
        wf_expr(x),
        wf_expr(y),
        !(x is Normal),
        !(y is Normal),
        follows_atom(u),
        follows_atom(v),
        display_expr(x) + u == display_expr(y) + v,
    ensures
        x == y,
        u == v,
{
    lemma_display_ends(x);
    lemma_display_ends(y);
    let dx = display_expr(x);
    let dy = display_expr(y);
    assert((dx + u)[0] == dx[0]);
    assert((dy + v)[0] == dy[0]);
    assert(dx[0] == dy[0]);
    match (x, y) {
        (SpecExpr::Integer(i1), SpecExpr::Integer(i2)) => {
            if i1 >= 0 && i2 >= 0 {
                lemma_dec_digits_chars(i1 as nat);
                lemma_dec_digits_chars(i2 as nat);
                lemma_maximal_munch(
                    |c: char| '0' <= c && c <= '9',
                    dec_digits(i1 as nat),
                    dec_digits(i2 as nat),
                    u,
                    v,
                );
                lemma_dec_digits_injective(i1 as nat, i2 as nat);
            } else if i1 < 0 && i2 < 0 {
                let m1 = (-(i1 as int)) as nat;
                let m2 = (-(i2 as int)) as nat;
                lemma_dec_digits_chars(m1);
                lemma_dec_digits_chars(m2);
                assert(dec_digits(m1) + u =~= (dx + u).skip(1));
                assert(dec_digits(m2) + v =~= (dy + v).skip(1));
                lemma_maximal_munch(
                    |c: char| '0' <= c && c <= '9',
                    dec_digits(m1),
                    dec_digits(m2),
                    u,
                    v,
                );
                lemma_dec_digits_injective(m1, m2);
            } else if i1 < 0 {
                assert(dx[0] == '-');
                lemma_dec_digits_chars(i2 as nat);
                assert('0' <= dy[0] && dy[0] <= '9');
                assert(false);
            } else {
                assert(dy[0] == '-');
                lemma_dec_digits_chars(i1 as nat);
                assert('0' <= dx[0] && dx[0] <= '9');
                assert(false);
            }
        },
        (SpecExpr::Integer(i1), SpecExpr::Real(b2)) => {
            if i1 < 0 {
                assert(dx[0] == '-');
                lemma_dec_digits_chars(b2 as nat);
                assert('0' <= dy[0] && dy[0] <= '9');
                assert(false);
            } else {
                lemma_dec_digits_chars(i1 as nat);
                lemma_dec_digits_chars(b2 as nat);
                assert(dec_digits(b2 as nat).push('.') =~= dec_digits(b2 as nat) + seq!['.']);
                assert(dec_digits(b2 as nat) + (seq!['.'] + v) =~= dy + v);
                lemma_maximal_munch(
                    |c: char| '0' <= c && c <= '9',
                    dec_digits(i1 as nat),
                    dec_digits(b2 as nat),
                    u,
                    seq!['.'] + v,
                );
                assert(u[0] == '.');
                assert(false);
            }
        },
        (SpecExpr::Real(b1), SpecExpr::Integer(i2)) => {
            if i2 < 0 {
                assert(dy[0] == '-');
                lemma_dec_digits_chars(b1 as nat);
                assert('0' <= dx[0] && dx[0] <= '9');
                assert(false);
            } else {
                lemma_dec_digits_chars(b1 as nat);
                lemma_dec_digits_chars(i2 as nat);
                assert(dec_digits(b1 as nat).push('.') =~= dec_digits(b1 as nat) + seq!['.']);
                assert(dec_digits(b1 as nat) + (seq!['.'] + u) =~= dx + u);
                lemma_maximal_munch(
                    |c: char| '0' <= c && c <= '9',
                    dec_digits(b1 as nat),
                    dec_digits(i2 as nat),
                    seq!['.'] + u,
                    v,
                );
                assert(v[0] == '.');
                assert(false);
            }
        },
        (SpecExpr::Real(b1), SpecExpr::Real(b2)) => {
            lemma_dec_digits_chars(b1 as nat);
            lemma_dec_digits_chars(b2 as nat);
            assert(dec_digits(b1 as nat).push('.') =~= dec_digits(b1 as nat) + seq!['.']);
            assert(dec_digits(b2 as nat).push('.') =~= dec_digits(b2 as nat) + seq!['.']);
            assert(dec_digits(b1 as nat) + (seq!['.'] + u) =~= dx + u);
            assert(dec_digits(b2 as nat) + (seq!['.'] + v) =~= dy + v);
            lemma_maximal_munch(
                |c: char| '0' <= c && c <= '9',
                dec_digits(b1 as nat),
                dec_digits(b2 as nat),
                seq!['.'] + u,
                seq!['.'] + v,
            );
            lemma_dec_digits_injective(b1 as nat, b2 as nat);
            assert(u =~= (seq!['.'] + u).skip(1));
            assert(v =~= (seq!['.'] + v).skip(1));
        },
        (SpecExpr::Symbol(s1), SpecExpr::Symbol(s2)) => {
            lemma_symbol_token_chars(s1);
            lemma_symbol_token_chars(s2);
            lemma_maximal_munch(|c: char| is_token_char(c), s1, s2, u, v);
        },
        (SpecExpr::Text(t1), SpecExpr::Text(t2)) => {
            assert(escape_text(t1) + seq!['"'] + u =~= (dx + u).skip(1));
            assert(escape_text(t2) + seq!['"'] + v =~= (dy + v).skip(1));
            lemma_escaped_tail(t1, t2, u, v);
        },
        _ => {
            // The shapes differ, and the first character tells them apart:
            // a quote, a digit or minus sign, and a name-start character
            // belong to different shapes.
            assert(false);
        },
    }
}

/// Two well-formed expressions followed by expression-compatible text are
/// the same expression followed by the same text when their concatenations
/// agree.
proof fn lemma_display_unambiguous(a: SpecExpr, b: SpecExpr, u: Seq<char>, v: Seq<char>)
    requires
        wf_expr(a),
        wf_expr(b),
        follows_expr(u),
        follows_expr(v),
        display_expr(a) + u == display_expr(b) + v,
    ensures
        a == b,
        u == v,
    decreases display_expr(a).len(), 0nat,
{
    lemma_display_decomposes(a);
    lemma_display_decomposes(b);
    lemma_display_ends(atom_of(a));
    lemma_display_ends(atom_of(b));
    let ga = groups_of(a);
    let gb = groups_of(b);
    assert(display_expr(atom_of(a)) + (group_text(ga) + u) =~= display_expr(a) + u);
    assert(display_expr(atom_of(b)) + (group_text(gb) + v) =~= display_expr(b) + v);
    if ga.len() > 0 {
        lemma_group_text_front_char(ga);
        assert((group_text(ga) + u)[0] == '[');
    } else {
        assert(group_text(ga) + u =~= u);
    }
    if gb.len() > 0 {
        lemma_group_text_front_char(gb);
        assert((group_text(gb) + v)[0] == '[');
    } else {
        assert(group_text(gb) + v =~= v);
    }
    lemma_atoms_unambiguous(atom_of(a), atom_of(b), group_text(ga) + u, group_text(gb) + v);
    assert(display_expr(a).len() == display_expr(atom_of(a)).len() + group_text(ga).len());
    lemma_groups_unambiguous(ga, gb, u, v);
    lemma_recompose(a, b);
}

/// Two lists of bracket groups followed by expression-compatible text are
/// the same lists followed by the same text when their concatenations agree.
proof fn lemma_groups_unambiguous(
    ga: Seq<Seq<SpecExpr>>,
    gb: Seq<Seq<SpecExpr>>,
    u: Seq<char>,
    v: Seq<char>,
)
    requires
        forall|g: int, k: int|
            0 <= g < ga.len() && 0 <= k < ga[g].len() ==> wf_expr(#[trigger] ga[g][k]),
        forall|g: int, k: int|
            0 <= g < gb.len() && 0 <= k < gb[g].len() ==> wf_expr(#[trigger] gb[g][k]),
        follows_expr(u),
        follows_expr(v),
        group_text(ga) + u == group_text(gb) + v,
    ensures
        ga == gb,
        u == v,
    decreases group_text(ga).len(), 1nat,
{
    if ga.len() == 0 && gb.len() == 0 {
        assert(u =~= group_text(ga) + u);
        assert(v =~= group_text(gb) + v);
        assert(ga =~= gb);
    } else if ga.len() == 0 {
        lemma_group_text_front_char(gb);
        assert(u =~= group_text(ga) + u);
        assert(u[0] == (group_text(gb) + v)[0]);
        assert(false);
    } else if gb.len() == 0 {
        lemma_group_text_front_char(ga);
        assert(v =~= group_text(gb) + v);
        assert(v[0] == (group_text(ga) + u)[0]);
        assert(false);
    } else {
        lemma_group_text_split(ga);
        lemma_group_text_split(gb);
        let wa = group_text(ga.skip(1)) + u;
        let wb = group_text(gb.skip(1)) + v;
        assert(display_elements(ga[0]) + seq![']'] + wa =~= (group_text(ga) + u).skip(1));
        assert(display_elements(gb[0]) + seq![']'] + wb =~= (group_text(gb) + v).skip(1));
        assert(group_text(ga).len() == 2 + display_elements(ga[0]).len() + group_text(
            ga.skip(1),
        ).len());
        assert forall|k: int| 0 <= k < ga[0].len() implies wf_expr(#[trigger] ga[0][k]) by {}
        assert forall|k: int| 0 <= k < gb[0].len() implies wf_expr(#[trigger] gb[0][k]) by {}
        lemma_elements_unambiguous(ga[0], gb[0], wa, wb);
        assert forall|g: int, k: int|
            0 <= g < ga.skip(1).len() && 0 <= k < ga.skip(1)[g].len() implies wf_expr(
            #[trigger] ga.skip(1)[g][k],
        ) by {
            assert(ga.skip(1)[g] == ga[g + 1]);
        }
        assert forall|g: int, k: int|
            0 <= g < gb.skip(1).len() && 0 <= k < gb.skip(1)[g].len() implies wf_expr(
            #[trigger] gb.skip(1)[g][k],
        ) by {
            assert(gb.skip(1)[g] == gb[g + 1]);
        }
        lemma_groups_unambiguous(ga.skip(1), gb.skip(1), u, v);
        assert(ga =~= seq![ga[0]] + ga.skip(1));
        assert(gb =~= seq![gb[0]] + gb.skip(1));
    }
}

/// Two element lists, each closed by a bracket and a remainder, are the same
/// list with the same remainder when their concatenations agree.
proof fn lemma_elements_unambiguous(
    e1: Seq<SpecExpr>,
    e2: Seq<SpecExpr>,
    w1: Seq<char>,
    w2: Seq<char>,
)
    requires
        forall|k: int| 0 <= k < e1.len() ==> wf_expr(#[trigger] e1[k]),
        forall|k: int| 0 <= k < e2.len() ==> wf_expr(#[trigger] e2[k]),
        display_elements(e1) + seq![']'] + w1 == display_elements(e2) + seq![']'] + w2,
    ensures
        e1 == e2,
        w1 == w2,
    decreases display_elements(e1).len(), 1nat,
{
    let t1 = display_elements(e1) + seq![']'] + w1;
    let t2 = display_elements(e2) + seq![']'] + w2;
    if e1.len() == 0 && e2.len() == 0 {
        assert(w1 =~= t1.skip(1));
        assert(w2 =~= t2.skip(1));
        assert(e1 =~= e2);
    } else if e1.len() == 0 {
        lemma_display_elements_front(e2);
        lemma_display_first_char(e2[0]);
        assert(t1[0] == ']');
        assert(t2[0] == display_expr(e2[0])[0]);
        assert(false);
    } else if e2.len() == 0 {
        lemma_display_elements_front(e1);
        lemma_display_first_char(e1[0]);
        assert(t2[0] == ']');
        assert(t1[0] == display_expr(e1[0])[0]);
        assert(false);
    } else {
        lemma_display_elements_front(e1);
        lemma_display_elements_front(e2);
        let r1: Seq<char> = if e1.len() == 1 {
            seq![']'] + w1
        } else {
            seq![',', ' '] + (display_elements(e1.skip(1)) + seq![']'] + w1)
        };
        let r2: Seq<char> = if e2.len() == 1 {
            seq![']'] + w2
        } else {
            seq![',', ' '] + (display_elements(e2.skip(1)) + seq![']'] + w2)
        };
        assert(display_expr(e1[0]) + r1 =~= t1);
        assert(display_expr(e2[0]) + r2 =~= t2);
        lemma_display_unambiguous(e1[0], e2[0], r1, r2);
        if e1.len() == 1 && e2.len() == 1 {
            assert(w1 =~= r1.skip(1));
            assert(w2 =~= r2.skip(1));
            assert(e1 =~= e2);
        } else if e1.len() == 1 {
            assert(r1[0] == ']');
            assert(r2[0] == ',');
            assert(false);
        } else if e2.len() == 1 {
            assert(r1[0] == ',');
            assert(r2[0] == ']');
            assert(false);
        } else {
            assert(display_elements(e1.skip(1)) + seq![']'] + w1 =~= r1.skip(2));
            assert(display_elements(e2.skip(1)) + seq![']'] + w2 =~= r2.skip(2));
            assert forall|k: int| 0 <= k < e1.skip(1).len() implies wf_expr(
                #[trigger] e1.skip(1)[k],
            ) by {
                assert(e1.skip(1)[k] == e1[k + 1]);
            }
            assert forall|k: int| 0 <= k < e2.skip(1).len() implies wf_expr(
                #[trigger] e2.skip(1)[k],
            ) by {
                assert(e2.skip(1)[k] == e2[k + 1]);
            }
            lemma_elements_unambiguous(e1.skip(1), e2.skip(1), w1, w2);
            assert(e1 =~= seq![e1[0]] + e1.skip(1));
            assert(e2 =~= seq![e2[0]] + e2.skip(1));
        }
    }
}

/// The display form is injective: one text is the display of at most one
/// well-formed expression. With the contract of [`Expr::parse`], any
/// expression parsed back from the display of a well-formed expression is
/// structurally equal to it.
pub proof fn lemma_display_injective(a: SpecExpr, b: SpecExpr)
    requires
        wf_expr(a),
        wf_expr(b),
        display_expr(a) == display_expr(b),
    ensures
        a == b,
{
    assert(display_expr(a) + Seq::<char>::empty() =~= display_expr(a));
    assert(display_expr(b) + Seq::<char>::empty() =~= display_expr(b));
    lemma_display_unambiguous(a, b, Seq::empty(), Seq::empty());
}

/// Builds a normal expression from a well-formed head and well-formed
/// elements; the result is well-formed.
fn normal_of_parts(head: Expr, elements: Vec<Expr>) -> (r: Expr)
    requires
        wf_expr(head@),
        forall|k: int| 0 <= k < elements@.len() ==> wf_expr(#[trigger] elements@[k]@),
    ensures
        wf_expr(r@),
{
    proof {
        crate::lemma_exprs_model_index(elements@);
        assert forall|k: int|
            0 <= k < crate::exprs_model(elements@).len() implies wf_expr(
            #[trigger] crate::exprs_model(elements@)[k],
        ) by {
            assert(crate::exprs_model(elements@)[k] == elements@[k]@);
        }
    }
    Expr::normal(head, elements)
}

/// Reads one expression starting at character `pos`, returning it with the
/// position after it.
#[verifier::rlimit(100)]
fn parse_at(s: &str, pos: usize, n: usize) -> (r: Option<(Expr, usize)>)
    requires
        n == s@.len(),
        pos < n,
    ensures
        r matches Some(ep) ==> pos < ep.1 <= n && wf_expr(ep.0@),
        crate::grammar::is_symbol(s@.skip(pos as int)) ==> (r matches Some(ep) && ep.0@
            == SpecExpr::Symbol(s@.skip(pos as int)) && ep.1 == n),
    decreases n - pos,
{
    proof {
        if crate::grammar::is_symbol(s@.skip(pos as int)) {
            lemma_symbol_token_chars(s@.skip(pos as int));
            crate::grammar::lemma_symbol_recombine(s@.skip(pos as int));
            assert(crate::grammar::is_name_start(
                crate::grammar::symbol_context_part(s@.skip(pos as int))[0],
            ));
            assert(s@.skip(pos as int)[0] == s@[pos as int]);
            assert(crate::grammar::is_name_start(s@[pos as int]));
        }
    }
    let c = s.get_char(pos);
    let cv = c as u32;
    let mut cur: usize;
    let mut e: Expr;
    if c == '"' {
        // A quoted string; a backslash escapes the character after it.
        let mut buf = String::new();
        cur = pos + 1;
        let mut closed = false;
        while !closed && cur < n
            invariant
                pos < cur <= n,
                n == s@.len(),
                !crate::grammar::is_symbol(s@.skip(pos as int)),
            decreases n - cur,
        {
            let c2 = s.get_char(cur);
            if c2 == '"' {
                closed = true;
                cur = cur + 1;
            } else if c2 == '\\' {
                if cur + 1 >= n {
                    return None;
                }
                buf.push(s.get_char(cur + 1));
                cur = cur + 2;
            } else {
                buf.push(c2);
                cur = cur + 1;
            }
        }
        if !closed {
            return None;
        }
        e = Expr::string(buf.as_str());
    } else if c == '-' || (48 <= cv && cv <= 57) {
        // A number: decimal digits, an optional leading minus sign for an
        // integer, a trailing dot for the bit pattern of a real.
        let neg = c == '-';
        cur = if neg {
            pos + 1
        } else {
            pos
        };
        let mut val: u64 = 0;
        let mut any = false;
        while cur < n
            invariant
                pos <= cur <= n,
                n == s@.len(),
                neg ==> pos < cur,
                any ==> pos < cur,
                !crate::grammar::is_symbol(s@.skip(pos as int)),
            decreases n - cur,
        {
            let d = s.get_char(cur) as u32;
            if !(48 <= d && d <= 57) {
                break ;
            }
            let digit = (d - 48) as u64;
            if val > (u64::MAX - digit) / 10 {
                return None;
            }
            val = val * 10 + digit;
            any = true;
            cur = cur + 1;
        }
        if !any {
            return None;
        }
        if neg && cur == pos + 1 {
            return None;
        }
        let mut dot = false;
        if cur < n {
            if s.get_char(cur) == '.' {
                dot = true;
                cur = cur + 1;
            }
        }
        if dot {
            if neg {
                return None;
            }
            if (val >> 52) & 0x7ff == 0x7ff && (val & 0xf_ffff_ffff_ffff) != 0 {
                return None;
            }
            e = Expr::new(ExprKind::Real(val));
        } else {
            if neg {
                if val > 9223372036854775808u64 {
                    return None;
                }
                let iv: i64 = if val == 9223372036854775808u64 {
                    i64::MIN
                } else {
                    -(val as i64)
                };
                e = Expr::new(ExprKind::Integer(iv));
            } else {
                if val > i64::MAX as u64 {
                    return None;
                }
                e = Expr::new(ExprKind::Integer(val as i64));
            }
        }
    } else {
        // A symbol: name characters and namespace delimiters.
        cur = pos;
        while cur < n
            invariant
                pos <= cur <= n,
                n == s@.len(),
                crate::grammar::is_symbol(s@.skip(pos as int)) ==> forall|k: int|
                    pos <= k < cur ==> is_token_char(#[trigger] s@[k]),
            ensures
                crate::grammar::is_symbol(s@.skip(pos as int)) ==> cur == n,
            decreases n - cur,
        {
            let t = s.get_char(cur) as u32;
            let token_here = t == 36 || t == 96 || (48 <= t && t <= 57) || (65 <= t && t <= 90)
                || (97 <= t && t <= 122);
            proof {
                if crate::grammar::is_symbol(s@.skip(pos as int)) {
                    lemma_symbol_token_chars(s@.skip(pos as int));
                    assert(s@.skip(pos as int)[cur - pos] == s@[cur as int]);
                    assert(is_token_char(s@[cur as int]));
                    assert(token_here);
                }
            }
            if !token_here {
                break ;
            }
            cur = cur + 1;
        }
        proof {
            if crate::grammar::is_symbol(s@.skip(pos as int)) {
                assert(cur == n);
            }
        }
        if cur == pos {
            proof {
                if crate::grammar::is_symbol(s@.skip(pos as int)) {
                    assert(s@.skip(pos as int).len() > 0);
                    assert(false);
                }
            }
            return None;
        }
        let token = s.substring_char(pos, cur);
        proof {
            if crate::grammar::is_symbol(s@.skip(pos as int)) {
                assert(token@ =~= s@.skip(pos as int));
            }
        }
        match Symbol::try_new(token) {
            Some(sym) => {
                e = Expr::symbol(sym);
            },
            None => {
                proof {
                    if crate::grammar::is_symbol(s@.skip(pos as int)) {
                        assert(false);
                    }
                }
                return None;
            },
        }
    }
    // Zero or more bracketed element lists: `head[...]`, `g[x][y]`.
    while cur < n
        invariant
            pos < cur <= n,
            n == s@.len(),
            wf_expr(e@),
            crate::grammar::is_symbol(s@.skip(pos as int)) ==> cur == n && e@ == SpecExpr::Symbol(
                s@.skip(pos as int),
            ),
        decreases n - cur,
    {
        let c2 = s.get_char(cur);
        if c2 != '[' {
            break ;
        }
        cur = cur + 1;
        let ghost mark = cur as int;
        let mut elements: Vec<Expr> = Vec::new();
        if cur >= n {
            return None;
        }
        if s.get_char(cur) == ']' {
            cur = cur + 1;
        } else {
            let mut done = false;
            while !done
                invariant
                    pos < cur <= n,
                    mark <= cur as int,
                    n == s@.len(),
                    wf_expr(e@),
                    !crate::grammar::is_symbol(s@.skip(pos as int)),
                    forall|k: int| 0 <= k < elements@.len() ==> wf_expr(#[trigger] elements@[k]@),
                decreases n - cur,
            {
                if cur >= n {
                    return None;
                }
                match parse_at(s, cur, n) {
                    None => {
                        return None;
                    },
                    Some((element, p)) => {
                        elements.push(element);
                        cur = p;
                    },
                }
                if cur >= n {
                    return None;
                }
                let c3 = s.get_char(cur);
                if c3 == ']' {
                    cur = cur + 1;
                    done = true;
                } else if c3 == ',' {
                    if cur + 1 >= n {
                        return None;
                    }
                    if s.get_char(cur + 1) != ' ' {
                        return None;
                    }
                    cur = cur + 2;
                } else {
                    return None;
                }
            }
        }
        let head = e;
        e = normal_of_parts(head, elements);
    }
    Some((e, cur))
}

impl Expr {
    /// Parses the display form of an expression. A present result is
    /// well-formed and renders back to exactly the given text, so parsing
    /// and display round-trip on everything this function accepts, and by
    /// [`lemma_display_injective`] the result is the one well-formed
    /// expression with that display. Valid symbol text always parses.
    pub fn parse(s: &str) -> (r: Option<Expr>)
        ensures
            r matches Some(e) ==> display_expr(e@) == s@ && wf_expr(e@),
            crate::grammar::is_symbol(s@) ==> (r matches Some(e) && e@ == SpecExpr::Symbol(s@)),
    {
        proof {
            if crate::grammar::is_symbol(s@) {
                crate::grammar::lemma_symbol_recombine(s@);
                assert(s@.len() > 0);
            }
            assert(s@.skip(0) =~= s@);
        }
        let n = s.unicode_len();
        if n == 0 {
            return None;
        }
        match parse_at(s, 0, n) {
            None => None,
            Some((e, p)) => {
                if p != n {
                    return None;
                }
                let shown = e.display_string();
                let given = String::from_str(s);
                if shown.eq(&given) {
                    Some(e)
                } else {
                    None
                }
            },
        }
    }
}

} // verus!
