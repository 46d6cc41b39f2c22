//! Immutable, structurally shared symbolic expressions: a reference-counted
//! expression tree (`Expr`) together with validated identifier and namespace
//! string types (`Symbol`, `Context` and their relatives).
//!
//! An expression is an integer, a real number, a string, a symbol, or a
//! "normal" expression: a head applied to an ordered list of elements. The
//! tree is held behind an atomically reference-counted pointer, so cloning a
//! handle is cheap, and mutation goes through a copy-on-write accessor that
//! privatizes the storage only when it is shared.
//!
//! Real numbers are carried as the 64 bits of an IEEE 754 binary64 value,
//! which keeps every operation on them exact; a well-formed real is never a
//! NaN pattern.

pub mod grammar;
mod shared;
pub mod symbol;
pub mod text;

pub use symbol::Symbol;

use vstd::prelude::*;
use vstd::string::StringExecFns;
use vstd::string::StrSliceExecFns;

use crate::grammar::is_symbol;
use crate::shared::{arc_clone, arc_make_mut_kind, arc_strong_count, arc_try_unwrap};

use std::sync::Arc;

verus! {

/// Whether `bits` is the pattern of an IEEE 754 binary64 NaN: all exponent
/// bits set and a non-zero fraction.
pub open spec fn is_nan_bits(bits: u64) -> bool {
    (bits >> 52) & 0x7ff == 0x7ff && (bits & 0xf_ffff_ffff_ffff) != 0
}

/// The mathematical shape of an expression: the tree with every handle and
/// buffer peeled away.
#[verifier::ext_equal]
pub enum SpecExpr {
    Integer(i64),
    Real(u64),
    Text(Seq<char>),
    Symbol(Seq<char>),
    Normal(Box<SpecExpr>, Seq<SpecExpr>),
}

/// A well-formed expression: reals are never NaN and symbol leaves hold
/// valid symbol text. Everything the public constructors build is
/// well-formed.
pub open spec fn wf_expr(e: SpecExpr) -> bool
    decreases e,
{
    match e {
        SpecExpr::Integer(_) => true,
        SpecExpr::Real(bits) => !is_nan_bits(bits),
        SpecExpr::Text(_) => true,
        SpecExpr::Symbol(s) => is_symbol(s),
        SpecExpr::Normal(head, elements) => wf_expr(*head) && forall|i: int|
            0 <= i < elements.len() ==> wf_expr(#[trigger] elements[i]),
    }
}

/// Symbolic expression: a cheap-to-clone, immutable handle onto an
/// [`ExprKind`] tree. Mutation is possible only through [`Expr::kind_mut`],
/// which privatizes shared storage first.
#[derive(Debug, PartialEq, Eq, Hash)]
#[verifier::ext_equal]
pub struct Expr {
    inner: Arc<ExprKind>,
}

/// The variants of an expression.
#[derive(Debug, PartialEq, Eq, Hash)]
#[verifier::ext_equal]
pub enum ExprKind {
    Integer(i64),
    Real(u64),
    String(String),
    Symbol(Symbol),
    Normal(Normal),
}

/// A "normal" expression: a head applied to zero or more elements, order
/// significant and preserved.
#[derive(Debug, PartialEq, Eq, Hash)]
#[verifier::ext_equal]
pub struct Normal {
    head: Expr,
    contents: Vec<Expr>,
}

/// A scalar numeric value: a 64-bit signed integer or a non-NaN real,
/// carried as its bit pattern.
#[derive(Debug, Clone, Copy, PartialEq, Eq, Hash, Structural)]
pub enum Number {
    Integer(i64),
    Real(u64),
}

/// The shape of a sequence of expressions.
pub open spec fn exprs_model(s: Seq<Expr>) -> Seq<SpecExpr>
    decreases s,
{
    if s.len() == 0 {
        Seq::empty()
    } else {
        exprs_model(s.drop_last()).push(s.last()@)
    }
}

impl View for Expr {
    type V = SpecExpr;

    closed spec fn view(&self) -> SpecExpr
        decreases self,
    {
        (*self.inner)@
    }
}

impl View for ExprKind {
    type V = SpecExpr;

    closed spec fn view(&self) -> SpecExpr
        decreases self,
    {
        match self {
            ExprKind::Integer(i) => SpecExpr::Integer(*i),
            ExprKind::Real(bits) => SpecExpr::Real(*bits),
            ExprKind::String(s) => SpecExpr::Text(s@),
            ExprKind::Symbol(sym) => SpecExpr::Symbol(sym@),
            ExprKind::Normal(normal) => normal@,
        }
    }
}

impl View for Normal {
    type V = SpecExpr;

    closed spec fn view(&self) -> SpecExpr
        decreases self,
    {
        SpecExpr::Normal(Box::new(self.head@), exprs_model(self.contents@))
    }
}

/// Each entry of the shape of a sequence is the shape of that entry.
pub proof fn lemma_exprs_model_index(s: Seq<Expr>)
    ensures
        exprs_model(s).len() == s.len(),
        forall|i: int| 0 <= i < s.len() ==> exprs_model(s)[i] == #[trigger] s[i]@,
    decreases s,
{
    if s.len() > 0 {
        lemma_exprs_model_index(s.drop_last());
        assert(exprs_model(s) == exprs_model(s.drop_last()).push(s.last()@));
        assert forall|i: int| 0 <= i < s.len() implies exprs_model(s)[i] == #[trigger] s[i]@ by {
            if i < s.len() - 1 {
                assert(s.drop_last()[i] == s[i]);
                assert(exprs_model(s)[i] == exprs_model(s.drop_last())[i]);
            } else {
                assert(exprs_model(s)[i] == s.last()@);
            }
        }
    }
}

/// The outermost symbol naming an expression: the symbol itself for a symbol
/// leaf, the head's tag for a normal expression, nothing for other leaves.
pub open spec fn tag_of(e: SpecExpr) -> Option<Seq<char>>
    decreases e,
{
    match e {
        SpecExpr::Symbol(s) => Some(s),
        SpecExpr::Normal(head, _) => tag_of(*head),
        _ => None,
    }
}

impl Clone for Expr {
    /// The clone shares the same tree.
    fn clone(&self) -> (r: Self)
        ensures
            r == *self,
    {
        Expr { inner: arc_clone(&self.inner) }
    }
}

impl Clone for Normal {
    /// The clone has the same shape: an equal head and equal elements.
    fn clone(&self) -> (r: Self)
        ensures
            r@ == self@,
    {
        Normal { head: self.head.clone(), contents: clone_expr_vec(&self.contents) }
    }
}

impl Clone for ExprKind {
    /// The clone has the same shape; expressions inside it are shared, not
    /// copied.
    fn clone(&self) -> (r: Self)
        ensures
            r@ == self@,
    {
        match self {
            ExprKind::Integer(i) => ExprKind::Integer(*i),
            ExprKind::Real(bits) => ExprKind::Real(*bits),
            ExprKind::String(s) => ExprKind::String(s.clone()),
            ExprKind::Symbol(sym) => ExprKind::Symbol(sym.clone()),
            ExprKind::Normal(normal) => ExprKind::Normal(normal.clone()),
        }
    }
}

/// Copies a vector of expression handles one by one.
fn clone_expr_vec(v: &Vec<Expr>) -> (r: Vec<Expr>)
    ensures
        r@ == v@,
{
    let mut r: Vec<Expr> = Vec::new();
    let n = v.len();
    let mut i: usize = 0;
    while i < n
        invariant
            0 <= i <= n == v@.len(),
            r@ =~= v@.take(i as int),
        decreases n - i,
    {
        r.push(v[i].clone());
        proof {
            assert(r@ =~= v@.take(i + 1));
        }
        i = i + 1;
    }
    proof {
        assert(v@.take(n as int) =~= v@);
    }
    r
}

impl Number {
    /// A non-NaN real number, from the bits of an IEEE 754 binary64 value.
    /// NaN bit patterns are a caller contract violation and are ruled out.
    pub fn real_from_bits(bits: u64) -> (r: Self)
        requires
            !is_nan_bits(bits),
        ensures
            r == Number::Real(bits),
    {
        Number::Real(bits)
    }

    /// A real number, from the bits of an IEEE 754 binary64 value; nothing
    /// when the bits are a NaN pattern.
    pub fn try_real(bits: u64) -> (r: Option<Self>)
        ensures
            r == if is_nan_bits(bits) {
                Option::<Number>::None
            } else {
                Option::<Number>::Some(Number::Real(bits))
            },
    {
        if (bits >> 52) & 0x7ff == 0x7ff && (bits & 0xf_ffff_ffff_ffff) != 0 {
            None
        } else {
            Some(Number::Real(bits))
        }
    }
}

impl Expr {
    /// Builds an expression from a kind.
    pub fn new(kind: ExprKind) -> (r: Expr)
        ensures
            r@ == kind@,
    {
        Expr { inner: Arc::new(kind) }
    }

    /// Consumes the handle and yields the kind it points at: without a copy
    /// when this handle was the only holder, after one shallow clone
    /// otherwise.
    pub fn to_kind(self) -> (r: ExprKind)
        ensures
            r@ == self@,
    {
        match arc_try_unwrap(self.inner) {
            Ok(kind) => kind,
            Err(inner) => (*inner).clone(),
        }
    }

    /// The kind this expression points at, read-only.
    pub fn kind(&self) -> (r: &ExprKind)
        ensures
            r@ == self@,
    {
        &*self.inner
    }

    /// Mutable access to the kind, copy-on-write: when the tree is shared
    /// with other holders it is cloned first, so only this handle observes
    /// the mutation.
    pub fn kind_mut(&mut self) -> (r: &mut ExprKind)
        ensures
            r@ == old(self)@,
            final(self)@ == final(r)@,
    {
        arc_make_mut_kind(&mut self.inner)
    }

    /// The number of handles currently sharing this expression's storage.
    pub fn ref_count(&self) -> (r: usize)
        ensures
            r >= 1,
    {
        arc_strong_count(&self.inner)
    }

    /// Builds a normal expression from a head and its elements; the element
    /// order is preserved exactly.
    pub fn normal(head: Expr, contents: Vec<Expr>) -> (r: Expr)
        ensures
            r@ == SpecExpr::Normal(Box::new(head@), exprs_model(contents@)),
    {
        Expr { inner: Arc::new(ExprKind::Normal(Normal { head, contents })) }
    }

    /// Builds a symbol expression.
    pub fn symbol(s: Symbol) -> (r: Expr)
        ensures
            r@ == SpecExpr::Symbol(s@),
    {
        Expr { inner: Arc::new(ExprKind::Symbol(s)) }
    }

    /// Builds a numeric expression.
    pub fn number(num: Number) -> (r: Expr)
        ensures
            r@ == match num {
                Number::Integer(i) => SpecExpr::Integer(i),
                Number::Real(bits) => SpecExpr::Real(bits),
            },
    {
        match num {
            Number::Integer(i) => Expr { inner: Arc::new(ExprKind::Integer(i)) },
            Number::Real(bits) => Expr { inner: Arc::new(ExprKind::Real(bits)) },
        }
    }

    /// Builds a string expression.
    pub fn string(s: &str) -> (r: Expr)
        ensures
            r@ == SpecExpr::Text(s@),
    {
        Expr { inner: Arc::new(ExprKind::String(s.to_owned())) }
    }

    /// Builds a real-number expression from the bits of an IEEE 754 binary64
    /// value. NaN bit patterns are a caller contract violation and are ruled
    /// out.
    pub fn real_from_bits(bits: u64) -> (r: Expr)
        requires
            !is_nan_bits(bits),
        ensures
            r@ == SpecExpr::Real(bits),
            wf_expr(r@),
    {
        Expr::number(Number::Real(bits))
    }

    /// The outermost symbol "tag" naming this expression, if there is one.
    pub fn tag(&self) -> (r: Option<Symbol>)
        ensures
            match r {
                Some(sym) => tag_of(self@) == Some(sym@),
                None => tag_of(self@) is None,
            },
        decreases *self,
    {
        match &*self.inner {
            ExprKind::Integer(_) => None,
            ExprKind::Real(_) => None,
            ExprKind::String(_) => None,
            ExprKind::Normal(normal) => normal.head.tag(),
            ExprKind::Symbol(sym) => Some(sym.clone()),
        }
    }

    /// The head of this expression when it is a normal expression.
    pub fn normal_head(&self) -> (r: Option<Expr>)
        ensures
            match r {
                Some(head) => self@ matches SpecExpr::Normal(h, _) && head@ == *h,
                None => !(self@ is Normal),
            },
    {
        match &*self.inner {
            ExprKind::Normal(normal) => Some(normal.head.clone()),
            _ => None,
        }
    }

    /// The element at `index_0` of a normal expression, counting from zero
    /// after the head; nothing for other shapes or when out of bounds.
    pub fn normal_part(&self, index_0: usize) -> (r: Option<&Expr>)
        ensures
            match r {
                Some(element) => self@ matches SpecExpr::Normal(_, elements) && index_0
                    < elements.len() && element@ == elements[index_0 as int],
                None => self@ matches SpecExpr::Normal(_, elements) ==> index_0 >= elements.len(),
            },
    {
        match &*self.inner {
            ExprKind::Normal(normal) => {
                proof {
                    lemma_exprs_model_index(normal.contents@);
                }
                if index_0 < normal.contents.len() {
                    Some(&normal.contents[index_0])
                } else {
                    None
                }
            },
            _ => None,
        }
    }

    /// This expression's normal node, when it is one.
    pub fn try_normal(&self) -> (r: Option<&Normal>)
        ensures
            match r {
                Some(normal) => normal@ == self@ && self@ is Normal,
                None => !(self@ is Normal),
            },
    {
        match &*self.inner {
            ExprKind::Normal(normal) => Some(normal),
            _ => None,
        }
    }

    /// This expression's symbol, when it is a symbol leaf.
    pub fn try_symbol(&self) -> (r: Option<&Symbol>)
        ensures
            match r {
                Some(sym) => self@ == SpecExpr::Symbol(sym@),
                None => !(self@ is Symbol),
            },
    {
        match &*self.inner {
            ExprKind::Symbol(sym) => Some(sym),
            _ => None,
        }
    }

    /// This expression's numeric value, when it is a numeric leaf.
    pub fn try_number(&self) -> (r: Option<Number>)
        ensures
            match self@ {
                SpecExpr::Integer(i) => r == Some(Number::Integer(i)),
                SpecExpr::Real(bits) => r == Some(Number::Real(bits)),
                _ => r is None,
            },
    {
        match &*self.inner {
            ExprKind::Integer(i) => Some(Number::Integer(*i)),
            ExprKind::Real(bits) => Some(Number::Real(*bits)),
            _ => None,
        }
    }

    /// Whether this is a normal expression whose head is the symbol `sym`.
    pub fn has_normal_head(&self, sym: &Symbol) -> (r: bool)
        ensures
            r == (self@ matches SpecExpr::Normal(head, _) && *head == SpecExpr::Symbol(sym@)),
    {
        match &*self.inner {
            ExprKind::Normal(normal) => normal.has_head(sym),
            _ => false,
        }
    }

    /// The expression for the built-in null value.
    pub fn null() -> (r: Expr)
        ensures
            r@ == SpecExpr::Symbol("System`Null"@),
            wf_expr(r@),
    {
        proof {
            reveal_strlit("System`Null");
            assert("System`Null"@ =~= seq![
                'S',
                'y',
                's',
                't',
                'e',
                'm',
                '`',
                'N',
                'u',
                'l',
                'l',
            ]);
            crate::grammar::lemma_last_delim_at("System`Null"@, 6);
            assert(is_symbol("System`Null"@)) by {
                assert(crate::grammar::has_delim("System`Null"@));
                assert("System`Null"@.take(7) =~= seq!['S', 'y', 's', 't', 'e', 'm', '`']);
                assert("System`Null"@.skip(7) =~= seq!['N', 'u', 'l', 'l']);
                assert(crate::grammar::is_context("System`Null"@.take(7)));
                assert(crate::grammar::is_name("System`Null"@.skip(7)));
            }
        }
        Expr::symbol(Symbol::unchecked_new("System`Null"))
    }
}

impl Normal {
    /// Builds a normal node from a head and its elements; the element order
    /// is preserved exactly.
    pub fn new(head: Expr, contents: Vec<Expr>) -> (r: Self)
        ensures
            r@ == SpecExpr::Normal(Box::new(head@), exprs_model(contents@)),
    {
        Normal { head, contents }
    }

    /// The head of this normal expression.
    pub fn head(&self) -> (r: &Expr)
        ensures
            self@ matches SpecExpr::Normal(head, _) && r@ == *head,
    {
        &self.head
    }

    /// The elements of this normal expression, in order.
    pub fn elements(&self) -> (r: &[Expr])
        ensures
            self@ matches SpecExpr::Normal(_, elements) && exprs_model(r@) == elements,
    {
        self.contents.as_slice()
    }

    /// The elements of this normal expression, by value.
    pub fn into_elements(self) -> (r: Vec<Expr>)
        ensures
            self@ matches SpecExpr::Normal(_, elements) && exprs_model(r@) == elements,
    {
        self.contents
    }

    /// Whether the head of this normal expression is the symbol `sym`.
    pub fn has_head(&self, sym: &Symbol) -> (r: bool)
        ensures
            r == (self@ matches SpecExpr::Normal(head, _) && *head == SpecExpr::Symbol(sym@)),
    {
        self.head.eq_symbol(sym)
    }
}

impl Expr {
    /// Whether this expression is exactly the symbol `sym`, without building
    /// a symbol expression to compare against.
    pub fn eq_symbol(&self, sym: &Symbol) -> (r: bool)
        ensures
            r == (self@ == SpecExpr::Symbol(sym@)),
    {
        match &*self.inner {
            ExprKind::Symbol(own) => own.eq(sym),
            _ => false,
        }
    }
}

/// The decimal digit character for a value below ten.
fn digit_of(d: u64) -> (c: char)
    requires
        d < 10,
    ensures
        c == crate::text::digit_char(d as nat),
{
    match d {
        0 => '0',
        1 => '1',
        2 => '2',
        3 => '3',
        4 => '4',
        5 => '5',
        6 => '6',
        7 => '7',
        8 => '8',
        _ => '9',
    }
}

/// Appends the decimal digits of `n`, most significant first.
fn push_digits(out: &mut String, n: u64)
    ensures
        final(out)@ == old(out)@ + crate::text::dec_digits(n as nat),
    decreases n,
{
    if n < 10 {
        out.push(digit_of(n));
        proof {
            assert(final(out)@ =~= old(out)@ + crate::text::dec_digits(n as nat));
        }
    } else {
        push_digits(out, n / 10);
        out.push(digit_of(n % 10));
        proof {
            assert(final(out)@ =~= old(out)@ + crate::text::dec_digits(n as nat));
        }
    }
}

/// Appends the decimal display of a signed integer.
fn push_int(out: &mut String, v: i64)
    ensures
        final(out)@ == old(out)@ + crate::text::display_int(v as int),
{
    if v >= 0 {
        push_digits(out, v as u64);
    } else {
        out.push('-');
        let magnitude: u64 = if v == i64::MIN {
            9223372036854775808u64
        } else {
            (-v) as u64
        };
        push_digits(out, magnitude);
        proof {
            assert(final(out)@ =~= old(out)@ + crate::text::display_int(v as int));
        }
    }
}

/// Appends a quoted string literal, escaping `"` and `\`.
fn push_quoted(out: &mut String, s: &str)
    ensures
        final(out)@ == old(out)@ + seq!['"'] + crate::text::escape_text(s@) + seq!['"'],
{
    out.push('"');
    let ghost base = out@;
    proof {
        assert(s@.take(0) =~= Seq::<char>::empty());
        assert(base + crate::text::escape_text(s@.take(0)) =~= base);
    }
    let n = s.unicode_len();
    let mut i: usize = 0;
    while i < n
        invariant
            0 <= i <= n == s@.len(),
            out@ == base + crate::text::escape_text(s@.take(i as int)),
        decreases n - i,
    {
        let c = s.get_char(i);
        if c == '"' || c == '\\' {
            out.push('\\');
        }
        out.push(c);
        proof {
            assert(s@.take(i + 1).drop_last() =~= s@.take(i as int));
            assert(s@.take(i + 1).last() == s@[i as int]);
            assert(out@ =~= base + crate::text::escape_text(s@.take(i + 1)));
        }
        i = i + 1;
    }
    out.push('"');
    proof {
        assert(s@.take(n as int) =~= s@);
        assert(final(out)@ =~= old(out)@ + seq!['"'] + crate::text::escape_text(s@) + seq!['"']);
    }
}

impl Expr {
    /// Renders this expression as text that re-parses to a structurally
    /// equal expression.
    pub fn display_string(&self) -> (r: String)
        ensures
            r@ == crate::text::display_expr(self@),
    {
        let mut out = String::new();
        self.write_into(&mut out);
        proof {
            assert(Seq::<char>::empty() + crate::text::display_expr(self@)
                =~= crate::text::display_expr(self@));
        }
        out
    }

    /// Appends the display of this expression.
    #[verifier::loop_isolation(false)]
    fn write_into(&self, out: &mut String)
        ensures
            final(out)@ == old(out)@ + crate::text::display_expr(self@),
        decreases *self,
    {
        match &*self.inner {
            ExprKind::Integer(i) => {
                push_int(out, *i);
            },
            ExprKind::Real(bits) => {
                push_digits(out, *bits);
                out.push('.');
                proof {
                    assert(final(out)@ =~= old(out)@ + crate::text::display_expr(self@));
                }
            },
            ExprKind::String(s) => {
                push_quoted(out, s.as_str());
                proof {
                    assert(old(out)@ + seq!['"'] + crate::text::escape_text(s@) + seq!['"']
                        =~= old(out)@ + crate::text::display_expr(self@));
                }
            },
            ExprKind::Symbol(sym) => {
                out.append(sym.as_str());
            },
            ExprKind::Normal(normal) => {
                normal.head.write_into(out);
                out.push('[');
                let ghost elements = exprs_model(normal.contents@);
                let ghost base = out@;
                proof {
                    lemma_exprs_model_index(normal.contents@);
                    assert(elements.take(0) =~= Seq::<SpecExpr>::empty());
                    assert(base + crate::text::display_elements(elements.take(0)) =~= base);
                }
                let n = normal.contents.len();
                let mut idx: usize = 0;
                while idx < n
                    invariant
                        0 <= idx <= n == normal.contents@.len(),
                        elements == exprs_model(normal.contents@),
                        elements.len() == n,
                        forall|k: int|
                            0 <= k < n ==> elements[k] == #[trigger] normal.contents@[k]@,
                        out@ == base + crate::text::display_elements(elements.take(idx as int)),
                    decreases n - idx,
                {
                    if idx > 0 {
                        out.push(',');
                        out.push(' ');
                    }
                    proof {
                        assert(decreases_to!(*self => self.inner));
                        assert(decreases_to!(*self.inner => *normal));
                        assert(decreases_to!(*normal => normal.contents));
                        assert(decreases_to!(normal.contents => normal.contents@[idx as int]));
                    }
                    normal.contents[idx].write_into(out);
                    proof {
                        assert(elements.take(idx + 1).drop_last() =~= elements.take(idx as int));
                        assert(elements.take(idx + 1).last() == elements[idx as int]);
                        if idx > 0 {
                            assert(out@ =~= base + crate::text::display_elements(
                                elements.take(idx + 1),
                            ));
                        } else {
                            assert(elements.take(1)[0] == elements[0]);
                            assert(out@ =~= base + crate::text::display_elements(
                                elements.take(idx + 1),
                            ));
                        }
                    }
                    idx = idx + 1;
                }
                out.push(']');
                proof {
                    assert(elements.take(n as int) =~= elements);
                    assert(final(out)@ =~= old(out)@ + crate::text::display_expr(self@));
                }
            },
        }
    }
}

impl PartialEq<Symbol> for Expr {
    /// Whether this expression is exactly the symbol `other`.
    fn eq(&self, other: &Symbol) -> (r: bool) {
        self.eq_symbol(other)
    }
}

impl From<Symbol> for Expr {
    /// Promotes a symbol to a symbol expression.
    fn from(sym: Symbol) -> (r: Expr)
        ensures
            r@ == SpecExpr::Symbol(sym@),
    {
        Expr::symbol(sym)
    }
}

impl vstd::std_specs::convert::FromSpecImpl<Symbol> for Expr {
    open spec fn obeys_from_spec() -> bool {
        false
    }

    open spec fn from_spec(v: Symbol) -> Expr {
        vstd::pervasive::arbitrary()
    }
}

impl From<&Symbol> for Expr {
    /// Promotes a borrowed symbol to a symbol expression; the symbol is
    /// shared, not copied.
    fn from(sym: &Symbol) -> (r: Expr)
        ensures
            r@ == SpecExpr::Symbol(sym@),
    {
        Expr::symbol(sym.clone())
    }
}

impl vstd::std_specs::convert::FromSpecImpl<&Symbol> for Expr {
    open spec fn obeys_from_spec() -> bool {
        false
    }

    open spec fn from_spec(v: &Symbol) -> Expr {
        vstd::pervasive::arbitrary()
    }
}

impl From<Normal> for Expr {
    /// Wraps a normal node as an expression.
    fn from(normal: Normal) -> (r: Expr)
        ensures
            r@ == normal@,
    {
        Expr::new(ExprKind::Normal(normal))
    }
}

impl vstd::std_specs::convert::FromSpecImpl<Normal> for Expr {
    open spec fn obeys_from_spec() -> bool {
        false
    }

    open spec fn from_spec(v: Normal) -> Expr {
        vstd::pervasive::arbitrary()
    }
}

impl From<&str> for Expr {
    /// Builds a string expression.
    fn from(s: &str) -> (r: Expr)
        ensures
            r@ == SpecExpr::Text(s@),
    {
        Expr::string(s)
    }
}

impl vstd::std_specs::convert::FromSpecImpl<&str> for Expr {
    open spec fn obeys_from_spec() -> bool {
        false
    }

    open spec fn from_spec(v: &str) -> Expr {
        vstd::pervasive::arbitrary()
    }
}

impl From<i64> for Expr {
    /// Builds an integer expression.
    fn from(value: i64) -> (r: Expr)
        ensures
            r@ == SpecExpr::Integer(value),
    {
        Expr::number(Number::Integer(value))
    }
}

impl vstd::std_specs::convert::FromSpecImpl<i64> for Expr {
    open spec fn obeys_from_spec() -> bool {
        false
    }

    open spec fn from_spec(v: i64) -> Expr {
        vstd::pervasive::arbitrary()
    }
}

impl From<i32> for Expr {
    /// Builds an integer expression.
    fn from(value: i32) -> (r: Expr)
        ensures
            r@ == SpecExpr::Integer(value as i64),
    {
        Expr::number(Number::Integer(value as i64))
    }
}

impl vstd::std_specs::convert::FromSpecImpl<i32> for Expr {
    open spec fn obeys_from_spec() -> bool {
        false
    }

    open spec fn from_spec(v: i32) -> Expr {
        vstd::pervasive::arbitrary()
    }
}

impl From<i16> for Expr {
    /// Builds an integer expression.
    fn from(value: i16) -> (r: Expr)
        ensures
            r@ == SpecExpr::Integer(value as i64),
    {
        Expr::number(Number::Integer(value as i64))
    }
}

impl vstd::std_specs::convert::FromSpecImpl<i16> for Expr {
    open spec fn obeys_from_spec() -> bool {
        false
    }

    open spec fn from_spec(v: i16) -> Expr {
        vstd::pervasive::arbitrary()
    }
}

impl From<i8> for Expr {
    /// Builds an integer expression.
    fn from(value: i8) -> (r: Expr)
        ensures
            r@ == SpecExpr::Integer(value as i64),
    {
        Expr::number(Number::Integer(value as i64))
    }
}

impl vstd::std_specs::convert::FromSpecImpl<i8> for Expr {
    open spec fn obeys_from_spec() -> bool {
        false
    }

    open spec fn from_spec(v: i8) -> Expr {
        vstd::pervasive::arbitrary()
    }
}

impl From<u8> for Expr {
    /// Builds an integer expression.
    fn from(value: u8) -> (r: Expr)
        ensures
            r@ == SpecExpr::Integer(value as i64),
    {
        Expr::number(Number::Integer(value as i64))
    }
}

impl vstd::std_specs::convert::FromSpecImpl<u8> for Expr {
    open spec fn obeys_from_spec() -> bool {
        false
    }

    open spec fn from_spec(v: u8) -> Expr {
        vstd::pervasive::arbitrary()
    }
}

impl From<u16> for Expr {
    /// Builds an integer expression.
    fn from(value: u16) -> (r: Expr)
        ensures
            r@ == SpecExpr::Integer(value as i64),
    {
        Expr::number(Number::Integer(value as i64))
    }
}

impl vstd::std_specs::convert::FromSpecImpl<u16> for Expr {
    open spec fn obeys_from_spec() -> bool {
        false
    }

    open spec fn from_spec(v: u16) -> Expr {
        vstd::pervasive::arbitrary()
    }
}

impl From<u32> for Expr {
    /// Builds an integer expression.
    fn from(value: u32) -> (r: Expr)
        ensures
            r@ == SpecExpr::Integer(value as i64),
    {
        Expr::number(Number::Integer(value as i64))
    }
}

impl vstd::std_specs::convert::FromSpecImpl<u32> for Expr {
    open spec fn obeys_from_spec() -> bool {
        false
    }

    open spec fn from_spec(v: u32) -> Expr {
        vstd::pervasive::arbitrary()
    }
}

impl From<Number> for ExprKind {
    /// The kind holding this numeric value.
    fn from(number: Number) -> (r: ExprKind)
        ensures
            r == (match number {
                Number::Integer(value) => ExprKind::Integer(value),
                Number::Real(bits) => ExprKind::Real(bits),
            }),
    {
        match number {
            Number::Integer(value) => ExprKind::Integer(value),
            Number::Real(bits) => ExprKind::Real(bits),
        }
    }
}

impl vstd::std_specs::convert::FromSpecImpl<Number> for ExprKind {
    open spec fn obeys_from_spec() -> bool {
        true
    }

    open spec fn from_spec(v: Number) -> ExprKind {
        match v {
            Number::Integer(value) => ExprKind::Integer(value),
            Number::Real(bits) => ExprKind::Real(bits),
        }
    }
}

impl vstd::std_specs::cmp::PartialEqSpecImpl<Symbol> for Expr {
    open spec fn obeys_eq_spec() -> bool {
        true
    }

    open spec fn eq_spec(&self, other: &Symbol) -> bool {
        self@ == SpecExpr::Symbol(other@)
    }
}

} // verus!
