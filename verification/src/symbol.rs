//! Validated identifier and namespace strings.

use vstd::prelude::*;

use vstd::string::StringSliceAdditionalSpecFns;
use vstd::string::StrSliceExecFns;

use crate::grammar::{
    components_of, has_delim, is_context, is_delim, is_name, is_name_char, is_name_start,
    is_relative_context, is_symbol, last_delim_ix, lemma_first_delim_at, lemma_join_components, lemma_last_delim_at,
    lemma_last_delim_ix, lemma_single_component, lemma_symbol_recombine, symbol_context_part,
    symbol_name_part,
};
use crate::shared::arc_clone;

use std::sync::Arc;

verus! {

/// Every character a name may hold is ASCII.
proof fn lemma_name_chars_ascii(s: Seq<char>)
    requires
        is_name(s),
    ensures
        vstd::utf8::is_ascii_chars(s),
{
    assert forall|i: int| 0 <= i < s.len() implies '\0' <= #[trigger] s[i] <= '\u{7f}' by {
        if i == 0 {
            assert(is_name_start(s[0]));
        } else {
            assert(is_name_char(s[i]));
        }
    }
}

/// Every character a context may hold is ASCII.
proof fn lemma_context_chars_ascii(s: Seq<char>)
    requires
        is_context(s),
    ensures
        vstd::utf8::is_ascii_chars(s),
{
    assert forall|i: int| 0 <= i < s.len() implies '\0' <= #[trigger] s[i] <= '\u{7f}' by {
        if !is_delim(s[i]) {
            assert(is_name_char(s[i]));
        }
    }
}

/// Every character a symbol may hold is ASCII.
proof fn lemma_symbol_chars_ascii(s: Seq<char>)
    requires
        is_symbol(s),
    ensures
        vstd::utf8::is_ascii_chars(s),
{
    lemma_last_delim_ix(s);
    let j = last_delim_ix(s);
    lemma_context_chars_ascii(s.take(j + 1));
    lemma_name_chars_ascii(s.skip(j + 1));
    assert forall|i: int| 0 <= i < s.len() implies '\0' <= #[trigger] s[i] <= '\u{7f}' by {
        if i <= j {
            assert(s[i] == s.take(j + 1)[i]);
        } else {
            assert(s[i] == s.skip(j + 1)[i - j - 1]);
        }
    }
}

/// Every character a relative context may hold is ASCII.
proof fn lemma_relative_context_chars_ascii(s: Seq<char>)
    requires
        is_relative_context(s),
    ensures
        vstd::utf8::is_ascii_chars(s),
{
    lemma_context_chars_ascii(s.skip(1));
    assert forall|i: int| 0 <= i < s.len() implies '\0' <= #[trigger] s[i] <= '\u{7f}' by {
        if i > 0 {
            assert(s[i] == s.skip(1)[i - 1]);
        }
    }
}

/// How the character classes of the grammar read on the byte value of an
/// ASCII character.
proof fn lemma_ascii_char_class(c: char)
    requires
        '\0' <= c && c <= '\u{7f}',
    ensures
        is_name_start(c) <==> (c as u8 == 36 || (65 <= c as u8 && c as u8 <= 90) || (97 <= c as u8
            && c as u8 <= 122)),
        is_name_char(c) <==> (c as u8 == 36 || (48 <= c as u8 && c as u8 <= 57) || (65 <= c as u8
            && c as u8 <= 90) || (97 <= c as u8 && c as u8 <= 122)),
        is_delim(c) <==> c as u8 == 96,
{
}

/// Checks whether `s` is a valid name.
pub fn validate_name(s: &str) -> (r: bool)
    ensures
        r == is_name(s@),
{
    if !s.is_ascii() {
        proof {
            if is_name(s@) {
                lemma_name_chars_ascii(s@);
            }
        }
        return false;
    }
    let n = s.unicode_len();
    if n == 0 {
        return false;
    }
    let c0 = s.get_ascii(0);
    proof {
        lemma_ascii_char_class(s@[0]);
    }
    if !(c0 == 36 || (65 <= c0 && c0 <= 90) || (97 <= c0 && c0 <= 122)) {
        return false;
    }
    let mut i: usize = 1;
    while i < n
        invariant
            1 <= i <= n,
            n == s@.len(),
            vstd::string::is_ascii(s),
            is_name_start(s@[0]),
            forall|k: int| 1 <= k < i ==> is_name_char(#[trigger] s@[k]),
        decreases n - i,
    {
        let c = s.get_ascii(i);
        proof {
            lemma_ascii_char_class(s@[i as int]);
        }
        if !(c == 36 || (48 <= c && c <= 57) || (65 <= c && c <= 90) || (97 <= c && c <= 122)) {
            return false;
        }
        i = i + 1;
    }
    true
}

/// Checks whether `s` is a valid absolute context.
pub fn validate_context(s: &str) -> (r: bool)
    ensures
        r == is_context(s@),
{
    if !s.is_ascii() {
        proof {
            if is_context(s@) {
                lemma_context_chars_ascii(s@);
            }
        }
        return false;
    }
    let n = s.unicode_len();
    if n == 0 {
        return false;
    }
    let mut i: usize = 0;
    let mut prev_delim: bool = true;
    while i < n
        invariant
            0 <= i <= n,
            0 < n == s@.len(),
            vstd::string::is_ascii(s),
            prev_delim == (i == 0 || is_delim(s@[i - 1])),
            i > 0 ==> !is_delim(s@[0]),
            forall|k: int| 0 <= k < i && !is_delim(#[trigger] s@[k]) ==> is_name_char(s@[k]),
            forall|k: int|
                0 <= k < i && (k == 0 || is_delim(s@[k - 1])) && !is_delim(#[trigger] s@[k])
                    ==> is_name_start(s@[k]),
            forall|k: int| 1 <= k < i && is_delim(#[trigger] s@[k]) ==> !is_delim(s@[k - 1]),
        decreases n - i,
    {
        let c = s.get_ascii(i);
        proof {
            lemma_ascii_char_class(s@[i as int]);
        }
        if c == 96 {
            if prev_delim {
                return false;
            }
            prev_delim = true;
        } else {
            if prev_delim {
                if !(c == 36 || (65 <= c && c <= 90) || (97 <= c && c <= 122)) {
                    return false;
                }
            } else {
                if !(c == 36 || (48 <= c && c <= 57) || (65 <= c && c <= 90) || (97 <= c && c
                    <= 122)) {
                    return false;
                }
            }
            prev_delim = false;
        }
        i = i + 1;
    }
    prev_delim
}

/// Checks whether `s` is a valid relative context.
pub fn validate_relative_context(s: &str) -> (r: bool)
    ensures
        r == is_relative_context(s@),
{
    if !s.is_ascii() {
        proof {
            if is_relative_context(s@) {
                lemma_relative_context_chars_ascii(s@);
            }
        }
        return false;
    }
    let n = s.unicode_len();
    if n < 2 {
        return false;
    }
    let c0 = s.get_ascii(0);
    proof {
        lemma_ascii_char_class(s@[0]);
    }
    if c0 != 96 {
        return false;
    }
    let rest = s.substring_ascii(1, n);
    let r = validate_context(rest);
    proof {
        assert(rest@ =~= s@.skip(1));
    }
    r
}

/// Finds the last delimiter of an ASCII string, if there is one.
fn rfind_delim(s: &str) -> (r: Option<usize>)
    requires
        vstd::string::is_ascii(s),
    ensures
        match r {
            Some(j) => has_delim(s@) && j == last_delim_ix(s@) && j < s@.len(),
            None => !has_delim(s@),
        },
{
    let n = s.unicode_len();
    let mut i: usize = n;
    while i > 0
        invariant
            0 <= i <= n == s@.len(),
            vstd::string::is_ascii(s),
            forall|k: int| i <= k < n ==> !is_delim(#[trigger] s@[k]),
        decreases i,
    {
        let c = s.get_ascii(i - 1);
        proof {
            lemma_ascii_char_class(s@[i - 1]);
        }
        if c == 96 {
            proof {
                lemma_last_delim_at(s@, i - 1);
            }
            return Some(i - 1);
        }
        i = i - 1;
    }
    None
}

/// Checks whether `s` is a valid symbol.
pub fn validate_symbol(s: &str) -> (r: bool)
    ensures
        r == is_symbol(s@),
{
    if !s.is_ascii() {
        proof {
            if is_symbol(s@) {
                lemma_symbol_chars_ascii(s@);
            }
        }
        return false;
    }
    let n = s.unicode_len();
    match rfind_delim(s) {
        None => false,
        Some(j) => {
            let ctx = s.substring_ascii(0, j + 1);
            let name = s.substring_ascii(j + 1, n);
            proof {
                assert(ctx@ =~= s@.take(j + 1));
                assert(name@ =~= s@.skip(j + 1));
            }
            let rc = validate_context(ctx);
            let rn = validate_name(name);
            rc && rn
        },
    }
}

/// Borrowed string slice known to hold a valid symbol.
#[derive(Debug, Copy, Clone, PartialEq, Eq, PartialOrd, Ord, Hash)]
pub struct SymbolRef<'s>(&'s str);

impl<'s> View for SymbolRef<'s> {
    type V = Seq<char>;

    closed spec fn view(&self) -> Seq<char> {
        self.0@
    }
}

impl<'s> SymbolRef<'s> {
    #[verifier::type_invariant]
    spec fn type_inv(self) -> bool {
        is_symbol(self.0@)
    }

    /// Validates `string` as a symbol, returning a checked view of it.
    pub fn try_new(string: &'s str) -> (r: Option<Self>)
        ensures
            match r {
                Some(sym) => is_symbol(string@) && sym@ == string@,
                None => !is_symbol(string@),
            },
    {
        if validate_symbol(string) {
            Some(SymbolRef(string))
        } else {
            None
        }
    }

    /// Wraps text already known to be a valid symbol.
    pub fn unchecked_new(string: &'s str) -> (r: Self)
        requires
            is_symbol(string@),
        ensures
            r@ == string@,
    {
        SymbolRef(string)
    }

    /// The borrowed string data.
    pub fn as_str(&self) -> (r: &'s str)
        ensures
            r@ == self@,
            is_symbol(self@),
    {
        proof {
            use_type_invariant(self);
        }
        self.0
    }

    /// Copies the borrowed text into an owned [`Symbol`].
    pub fn to_symbol(&self) -> (r: Symbol)
        ensures
            r@ == self@,
    {
        proof {
            use_type_invariant(self);
        }
        Symbol::unchecked_new(self.0)
    }

    /// The context part of this symbol: everything through the last
    /// delimiter.
    pub fn context(&self) -> (r: ContextRef<'s>)
        ensures
            is_symbol(self@),
            r@ == symbol_context_part(self@),
    {
        proof {
            use_type_invariant(self);
            lemma_symbol_chars_ascii(self.0@);
            lemma_symbol_recombine(self.0@);
        }
        let n = self.0.unicode_len();
        match rfind_delim(self.0) {
            Some(j) => {
                let part = self.0.substring_ascii(0, j + 1);
                proof {
                    assert(part@ =~= self.0@.take(j + 1));
                }
                ContextRef(part)
            },
            None => vstd::pervasive::unreached(),
        }
    }

    /// The name part of this symbol: everything after the last delimiter.
    pub fn symbol_name(&self) -> (r: SymbolNameRef<'s>)
        ensures
            is_symbol(self@),
            r@ == symbol_name_part(self@),
    {
        proof {
            use_type_invariant(self);
            lemma_symbol_chars_ascii(self.0@);
            lemma_symbol_recombine(self.0@);
        }
        let n = self.0.unicode_len();
        match rfind_delim(self.0) {
            Some(j) => {
                let part = self.0.substring_ascii(j + 1, n);
                proof {
                    assert(part@ =~= self.0@.skip(j + 1));
                }
                SymbolNameRef(part)
            },
            None => vstd::pervasive::unreached(),
        }
    }
}

/// Owned, reference-counted string holding a valid symbol.
#[derive(Debug, Eq, PartialOrd, Ord, Hash)]
pub struct Symbol(Arc<String>);

impl Clone for Symbol {
    /// The clone shares the same text.
    fn clone(&self) -> (r: Self)
        ensures
            r == *self,
    {
        proof {
            use_type_invariant(self);
        }
        Symbol(arc_clone(&self.0))
    }
}

impl PartialEq for Symbol {
    fn eq(&self, other: &Symbol) -> (r: bool) {
        let a: &String = &self.0;
        let b: &String = &other.0;
        a.eq(b)
    }
}

impl vstd::std_specs::cmp::PartialEqSpecImpl for Symbol {
    open spec fn obeys_eq_spec() -> bool {
        true
    }

    open spec fn eq_spec(&self, other: &Symbol) -> bool {
        self@ == other@
    }
}

impl View for Symbol {
    type V = Seq<char>;

    closed spec fn view(&self) -> Seq<char> {
        self.0@
    }
}

impl Symbol {
    #[verifier::type_invariant]
    spec fn type_inv(self) -> bool {
        is_symbol(self.0@)
    }

    /// Validates `input` as a symbol, copying it into an owned value.
    pub fn try_new(input: &str) -> (r: Option<Self>)
        ensures
            match r {
                Some(sym) => is_symbol(input@) && sym@ == input@,
                None => !is_symbol(input@),
            },
    {
        match SymbolRef::try_new(input) {
            Some(sym_ref) => Some(sym_ref.to_symbol()),
            None => None,
        }
    }

    /// Builds a symbol from text that must already be valid; meant for
    /// literal text whose validity is the caller's invariant.
    pub fn new(input: &str) -> (r: Self)
        requires
            is_symbol(input@),
        ensures
            r@ == input@,
    {
        Symbol::unchecked_new(input)
    }

    /// Wraps text already known to be a valid symbol.
    pub fn unchecked_new(input: &str) -> (r: Self)
        requires
            is_symbol(input@),
        ensures
            r@ == input@,
    {
        Symbol(std::sync::Arc::new(input.to_owned()))
    }

    /// The text of this symbol.
    pub fn as_str(&self) -> (r: &str)
        ensures
            r@ == self@,
            is_symbol(self@),
    {
        proof {
            use_type_invariant(self);
        }
        self.0.as_str()
    }

    /// A borrowed view of this symbol.
    pub fn as_symbol_ref(&self) -> (r: SymbolRef<'_>)
        ensures
            r@ == self@,
            is_symbol(self@),
    {
        proof {
            use_type_invariant(self);
        }
        SymbolRef(self.0.as_str())
    }

    /// The context part of this symbol: everything through the last
    /// delimiter.
    pub fn context(&self) -> (r: ContextRef<'_>)
        ensures
            is_symbol(self@),
            r@ == symbol_context_part(self@),
    {
        self.as_symbol_ref().context()
    }

    /// The name part of this symbol: everything after the last delimiter.
    pub fn symbol_name(&self) -> (r: SymbolNameRef<'_>)
        ensures
            is_symbol(self@),
            r@ == symbol_name_part(self@),
    {
        self.as_symbol_ref().symbol_name()
    }
}

/// Borrowed string slice known to hold a valid symbol name.
#[derive(Debug, Copy, Clone, PartialEq, Eq, PartialOrd, Ord, Hash)]
pub struct SymbolNameRef<'s>(&'s str);

impl<'s> View for SymbolNameRef<'s> {
    type V = Seq<char>;

    closed spec fn view(&self) -> Seq<char> {
        self.0@
    }
}

impl<'s> SymbolNameRef<'s> {
    #[verifier::type_invariant]
    spec fn type_inv(self) -> bool {
        is_name(self.0@)
    }

    /// Validates `string` as a symbol name, returning a checked view of it.
    pub fn try_new(string: &'s str) -> (r: Option<Self>)
        ensures
            match r {
                Some(name) => is_name(string@) && name@ == string@,
                None => !is_name(string@),
            },
    {
        if validate_name(string) {
            Some(SymbolNameRef(string))
        } else {
            None
        }
    }

    /// Wraps text already known to be a valid symbol name.
    pub fn unchecked_new(string: &'s str) -> (r: Self)
        requires
            is_name(string@),
        ensures
            r@ == string@,
    {
        SymbolNameRef(string)
    }

    /// The borrowed string data.
    pub fn as_str(&self) -> (r: &'s str)
        ensures
            r@ == self@,
            is_name(self@),
    {
        proof {
            use_type_invariant(self);
        }
        self.0
    }

    /// Copies the borrowed text into an owned [`SymbolName`].
    pub fn to_symbol_name(&self) -> (r: SymbolName)
        ensures
            r@ == self@,
    {
        proof {
            use_type_invariant(self);
        }
        SymbolName::unchecked_new(self.0)
    }
}

/// Borrowed string slice known to hold a valid context.
#[derive(Debug, Copy, Clone, PartialEq, Eq, PartialOrd, Ord, Hash)]
pub struct ContextRef<'s>(&'s str);

impl<'s> View for ContextRef<'s> {
    type V = Seq<char>;

    closed spec fn view(&self) -> Seq<char> {
        self.0@
    }
}

impl<'s> ContextRef<'s> {
    #[verifier::type_invariant]
    spec fn type_inv(self) -> bool {
        is_context(self.0@)
    }

    /// Validates `string` as a context, returning a checked view of it.
    pub fn try_new(string: &'s str) -> (r: Option<Self>)
        ensures
            match r {
                Some(context) => is_context(string@) && context@ == string@,
                None => !is_context(string@),
            },
    {
        if validate_context(string) {
            Some(ContextRef(string))
        } else {
            None
        }
    }

    /// Wraps text already known to be a valid context.
    pub fn unchecked_new(string: &'s str) -> (r: Self)
        requires
            is_context(string@),
        ensures
            r@ == string@,
    {
        ContextRef(string)
    }

    /// The borrowed string data.
    pub fn as_str(&self) -> (r: &'s str)
        ensures
            r@ == self@,
            is_context(self@),
    {
        proof {
            use_type_invariant(self);
        }
        self.0
    }

    /// Copies the borrowed text into an owned [`Context`].
    pub fn to_context(&self) -> (r: Context)
        ensures
            r@ == self@,
    {
        proof {
            use_type_invariant(self);
        }
        Context::unchecked_new(self.0)
    }
}

impl From<&Symbol> for Symbol {
    /// A shared copy of the borrowed symbol.
    fn from(sym: &Symbol) -> (r: Symbol)
        ensures
            r == *sym,
    {
        sym.clone()
    }
}

impl vstd::std_specs::convert::FromSpecImpl<&Symbol> for Symbol {
    open spec fn obeys_from_spec() -> bool {
        true
    }

    open spec fn from_spec(v: &Symbol) -> Symbol {
        *v
    }
}

/// Owned, reference-counted string holding a valid symbol name.
#[derive(Debug, Eq, PartialOrd, Ord, Hash)]
pub struct SymbolName(Arc<String>);

impl Clone for SymbolName {
    /// The clone shares the same text.
    fn clone(&self) -> (r: Self)
        ensures
            r == *self,
    {
        proof {
            use_type_invariant(self);
        }
        SymbolName(arc_clone(&self.0))
    }
}

impl PartialEq for SymbolName {
    fn eq(&self, other: &SymbolName) -> (r: bool) {
        let a: &String = &self.0;
        let b: &String = &other.0;
        a.eq(b)
    }
}

impl vstd::std_specs::cmp::PartialEqSpecImpl for SymbolName {
    open spec fn obeys_eq_spec() -> bool {
        true
    }

    open spec fn eq_spec(&self, other: &SymbolName) -> bool {
        self@ == other@
    }
}

impl View for SymbolName {
    type V = Seq<char>;

    closed spec fn view(&self) -> Seq<char> {
        self.0@
    }
}

impl SymbolName {
    #[verifier::type_invariant]
    spec fn type_inv(self) -> bool {
        is_name(self.0@)
    }

    /// Validates `input` as a symbol name, copying it into an owned value.
    pub fn try_new(input: &str) -> (r: Option<Self>)
        ensures
            match r {
                Some(name) => is_name(input@) && name@ == input@,
                None => !is_name(input@),
            },
    {
        match SymbolNameRef::try_new(input) {
            Some(name_ref) => Some(name_ref.to_symbol_name()),
            None => None,
        }
    }

    /// Wraps text already known to be a valid symbol name.
    pub fn unchecked_new(input: &str) -> (r: Self)
        requires
            is_name(input@),
        ensures
            r@ == input@,
    {
        SymbolName(Arc::new(input.to_owned()))
    }

    /// The text of this symbol name.
    pub fn as_str(&self) -> (r: &str)
        ensures
            r@ == self@,
            is_name(self@),
    {
        proof {
            use_type_invariant(self);
        }
        self.0.as_str()
    }

    /// A borrowed view of this symbol name.
    pub fn as_symbol_name_ref(&self) -> (r: SymbolNameRef<'_>)
        ensures
            r@ == self@,
            is_name(self@),
    {
        proof {
            use_type_invariant(self);
        }
        SymbolNameRef(self.0.as_str())
    }
}

/// Owned, reference-counted string holding a valid context.
#[derive(Debug, Eq, PartialOrd, Ord, Hash)]
pub struct Context(Arc<String>);

impl Clone for Context {
    /// The clone shares the same text.
    fn clone(&self) -> (r: Self)
        ensures
            r == *self,
    {
        proof {
            use_type_invariant(self);
        }
        Context(arc_clone(&self.0))
    }
}

impl PartialEq for Context {
    fn eq(&self, other: &Context) -> (r: bool) {
        let a: &String = &self.0;
        let b: &String = &other.0;
        a.eq(b)
    }
}

impl vstd::std_specs::cmp::PartialEqSpecImpl for Context {
    open spec fn obeys_eq_spec() -> bool {
        true
    }

    open spec fn eq_spec(&self, other: &Context) -> bool {
        self@ == other@
    }
}

impl View for Context {
    type V = Seq<char>;

    closed spec fn view(&self) -> Seq<char> {
        self.0@
    }
}

impl Context {
    #[verifier::type_invariant]
    spec fn type_inv(self) -> bool {
        is_context(self.0@)
    }

    /// Validates `input` as a context, copying it into an owned value.
    pub fn try_new(input: &str) -> (r: Option<Self>)
        ensures
            match r {
                Some(context) => is_context(input@) && context@ == input@,
                None => !is_context(input@),
            },
    {
        match ContextRef::try_new(input) {
            Some(context_ref) => Some(context_ref.to_context()),
            None => None,
        }
    }

    /// Builds a context from text that must already be valid; meant for
    /// literal text whose validity is the caller's invariant.
    pub fn new(input: &str) -> (r: Self)
        requires
            is_context(input@),
        ensures
            r@ == input@,
    {
        Context::unchecked_new(input)
    }

    /// Wraps text already known to be a valid context.
    pub fn unchecked_new(input: &str) -> (r: Self)
        requires
            is_context(input@),
        ensures
            r@ == input@,
    {
        Context(Arc::new(input.to_owned()))
    }

    /// The text of this context.
    pub fn as_str(&self) -> (r: &str)
        ensures
            r@ == self@,
            is_context(self@),
    {
        proof {
            use_type_invariant(self);
        }
        self.0.as_str()
    }

    /// A borrowed view of this context.
    pub fn as_context_ref(&self) -> (r: ContextRef<'_>)
        ensures
            r@ == self@,
            is_context(self@),
    {
        proof {
            use_type_invariant(self);
        }
        ContextRef(self.0.as_str())
    }

    /// The default user namespace.
    pub fn global() -> (r: Self)
        ensures
            r@ == "Global`"@,
    {
        proof {
            reveal_strlit("Global`");
            assert("Global`"@ =~= seq!['G', 'l', 'o', 'b', 'a', 'l', '`']);
            assert(is_context("Global`"@));
        }
        Context(Arc::new(String::from_str("Global`")))
    }

    /// The engine's own built-in namespace.
    pub fn system() -> (r: Self)
        ensures
            r@ == "System`"@,
    {
        proof {
            reveal_strlit("System`");
            assert("System`"@ =~= seq!['S', 'y', 's', 't', 'e', 'm', '`']);
            assert(is_context("System`"@));
        }
        Context(Arc::new(String::from_str("System`")))
    }

    /// Appends one more component to this context, yielding the deeper
    /// context `self` + `name` + delimiter.
    pub fn join(&self, name: SymbolNameRef<'_>) -> (r: Self)
        ensures
            r@ == self@ + name@ + seq!['`'],
            components_of(r@) == components_of(self@).push(name@),
    {
        proof {
            use_type_invariant(self);
            use_type_invariant(&name);
            lemma_join_components(self.0@, name.0@);
            lemma_context_chars_ascii(self.0@);
            reveal_strlit("`");
            assert("`"@ =~= seq!['`']);
        }
        let mut text = String::from_str(self.0.as_str());
        text.append(name.0);
        text.append("`");
        Context(Arc::new(text))
    }

    /// The context holding `name` as its single component.
    pub fn from_symbol_name(name: &SymbolName) -> (r: Self)
        ensures
            r@ == name@ + seq!['`'],
            components_of(r@) == seq![name@],
    {
        proof {
            use_type_invariant(name);
            lemma_single_component(name.0@);
            reveal_strlit("`");
            assert("`"@ =~= seq!['`']);
        }
        let mut text = String::from_str(name.0.as_str());
        text.append("`");
        Context(Arc::new(text))
    }

    /// The components of this context, in order.
    pub fn components(&self) -> (r: Vec<SymbolNameRef<'_>>)
        ensures
            name_views(r@) == components_of(self@),
            forall|i: int| 0 <= i < r@.len() ==> is_name(#[trigger] r@[i]@),
    {
        proof {
            use_type_invariant(self);
        }
        components_str(self.0.as_str())
    }
}

/// The texts of a sequence of checked symbol names.
pub open spec fn name_views(v: Seq<SymbolNameRef<'_>>) -> Seq<Seq<char>> {
    v.map_values(|x: SymbolNameRef<'_>| x@)
}

/// Splits a valid context into its components.
fn components_str<'s>(s: &'s str) -> (r: Vec<SymbolNameRef<'s>>)
    requires
        is_context(s@),
    ensures
        name_views(r@) == components_of(s@),
        forall|i: int| 0 <= i < r@.len() ==> is_name(#[trigger] r@[i]@),
{
    proof {
        lemma_context_chars_ascii(s@);
        assert(s@.skip(0) =~= s@);
        assert(name_views(Seq::empty()) + components_of(s@) =~= components_of(s@));
    }
    let n = s.unicode_len();
    let mut acc: Vec<SymbolNameRef<'s>> = Vec::new();
    let mut start: usize = 0;
    let mut i: usize = 0;
    while i < n
        invariant
            0 <= start as int <= i as int <= n as int,
            n == s@.len(),
            is_context(s@),
            vstd::string::is_ascii(s),
            start == 0 || is_delim(s@[start - 1]),
            forall|k: int| start <= k < i ==> !is_delim(#[trigger] s@[k]),
            components_of(s@) == name_views(acc@) + components_of(s@.skip(start as int)),
            forall|k: int| 0 <= k < acc@.len() ==> is_name(#[trigger] acc@[k]@),
        decreases n - i,
    {
        let c = s.get_ascii(i);
        proof {
            lemma_ascii_char_class(s@[i as int]);
        }
        if c == 96 {
            proof {
                if start == i {
                    // A delimiter cannot start the text nor follow another.
                    assert(false);
                }
            }
            let seg = s.substring_ascii(start, i);
            proof {
                assert(seg@ =~= s@.subrange(start as int, i as int));
                assert(is_name(seg@)) by {
                    assert(seg@[0] == s@[start as int]);
                    assert forall|k: int|
                        1 <= k < seg@.len() implies is_name_char(#[trigger] seg@[k]) by {
                        assert(seg@[k] == s@[start + k]);
                    }
                }
                let t = s@.skip(start as int);
                assert(is_delim(t[i - start]));
                assert forall|m: int| 0 <= m < i - start implies !is_delim(#[trigger] t[m]) by {
                    assert(t[m] == s@[start + m]);
                }
                lemma_first_delim_at(t, i - start);
                assert(has_delim(t));
                assert(t.take(i - start) =~= seg@);
                assert(t.skip(i - start + 1) =~= s@.skip(i + 1));
                assert(components_of(t) == seq![seg@] + components_of(s@.skip(i + 1)));
                assert(name_views(acc@.push(SymbolNameRef(seg))) =~= name_views(acc@).push(seg@));
                assert(name_views(acc@) + (seq![seg@] + components_of(s@.skip(i + 1)))
                    =~= name_views(acc@.push(SymbolNameRef(seg))) + components_of(s@.skip(i + 1)));
            }
            acc.push(SymbolNameRef(seg));
            start = i + 1;
        } else {
            proof {
                assert(!is_delim(s@[i as int]));
            }
        }
        i = i + 1;
    }
    proof {
        if start < n {
            assert(is_delim(s@[n - 1]));
            assert(false);
        }
        assert(s@.skip(n as int) =~= Seq::<char>::empty());
        assert(!has_delim(Seq::<char>::empty()));
        assert(name_views(acc@) + Seq::<Seq<char>>::empty() =~= name_views(acc@));
    }
    acc
}

/// Owned, reference-counted string holding a valid relative context.
#[derive(Debug, Eq, PartialOrd, Ord, Hash)]
pub struct RelativeContext(Arc<String>);

impl Clone for RelativeContext {
    /// The clone shares the same text.
    fn clone(&self) -> (r: Self)
        ensures
            r == *self,
    {
        proof {
            use_type_invariant(self);
        }
        RelativeContext(arc_clone(&self.0))
    }
}

impl PartialEq for RelativeContext {
    fn eq(&self, other: &RelativeContext) -> (r: bool) {
        let a: &String = &self.0;
        let b: &String = &other.0;
        a.eq(b)
    }
}

impl vstd::std_specs::cmp::PartialEqSpecImpl for RelativeContext {
    open spec fn obeys_eq_spec() -> bool {
        true
    }

    open spec fn eq_spec(&self, other: &RelativeContext) -> bool {
        self@ == other@
    }
}

impl View for RelativeContext {
    type V = Seq<char>;

    closed spec fn view(&self) -> Seq<char> {
        self.0@
    }
}

impl RelativeContext {
    #[verifier::type_invariant]
    spec fn type_inv(self) -> bool {
        is_relative_context(self.0@)
    }

    /// Validates `input` as a relative context, copying it into an owned
    /// value.
    pub fn try_new(input: &str) -> (r: Option<Self>)
        ensures
            match r {
                Some(context) => is_relative_context(input@) && context@ == input@,
                None => !is_relative_context(input@),
            },
    {
        if validate_relative_context(input) {
            Some(RelativeContext(Arc::new(input.to_owned())))
        } else {
            None
        }
    }

    /// Wraps text already known to be a valid relative context.
    pub fn unchecked_new(input: &str) -> (r: Self)
        requires
            is_relative_context(input@),
        ensures
            r@ == input@,
    {
        RelativeContext(Arc::new(input.to_owned()))
    }

    /// The text of this relative context.
    pub fn as_str(&self) -> (r: &str)
        ensures
            r@ == self@,
            is_relative_context(self@),
    {
        proof {
            use_type_invariant(self);
        }
        self.0.as_str()
    }

    /// The components of this relative context, in order: the components of
    /// the absolute context after the leading delimiter.
    pub fn components(&self) -> (r: Vec<SymbolNameRef<'_>>)
        ensures
            is_relative_context(self@),
            name_views(r@) == components_of(self@.skip(1)),
            forall|i: int| 0 <= i < r@.len() ==> is_name(#[trigger] r@[i]@),
    {
        proof {
            use_type_invariant(self);
            lemma_relative_context_chars_ascii(self.0@);
        }
        let n = self.0.as_str().unicode_len();
        let rest = self.0.as_str().substring_ascii(1, n);
        proof {
            assert(rest@ =~= self.0@.skip(1));
        }
        components_str(rest)
    }
}

} // verus!
