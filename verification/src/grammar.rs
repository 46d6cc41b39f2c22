//! The lexical grammar of symbols, symbol names and contexts.
//!
//! A *name* is one or more characters, the first a letter or `$`, the rest
//! letters, digits or `$`. A *context* is one or more names, each followed by
//! exactly one backtick delimiter. A *relative context* is a context preceded
//! by one leading delimiter. A *symbol* is a context followed by a name.

use vstd::prelude::*;

verus! {

/// The namespace delimiter.
pub open spec fn is_delim(c: char) -> bool {
    c == '`'
}

/// A character that may start a name: an ASCII letter or `$`.
pub open spec fn is_name_start(c: char) -> bool {
    ('A' <= c && c <= 'Z') || ('a' <= c && c <= 'z') || c == '$'
}

/// A character that may continue a name: a name-start character or a digit.
pub open spec fn is_name_char(c: char) -> bool {
    is_name_start(c) || ('0' <= c && c <= '9')
}

/// A valid name: non-empty, starts with a name-start character, and every
/// further character is a name character. Names never contain the delimiter.
pub open spec fn is_name(s: Seq<char>) -> bool {
    &&& s.len() > 0
    &&& is_name_start(s[0])
    &&& forall|i: int| 1 <= i < s.len() ==> is_name_char(#[trigger] s[i])
}

/// A valid absolute context, characterized pointwise: it ends with a
/// delimiter, does not begin with one, never holds two delimiters in a row,
/// and each run between delimiters is a valid name (its first character a
/// name-start character, the rest name characters).
pub open spec fn is_context(s: Seq<char>) -> bool {
    &&& s.len() > 0
    &&& is_delim(s[s.len() - 1])
    &&& !is_delim(s[0])
    &&& forall|i: int| 0 <= i < s.len() && !is_delim(#[trigger] s[i]) ==> is_name_char(s[i])
    &&& forall|i: int|
        0 <= i < s.len() && (i == 0 || is_delim(s[i - 1])) && !is_delim(#[trigger] s[i])
            ==> is_name_start(s[i])
    &&& forall|i: int| 1 <= i < s.len() && is_delim(#[trigger] s[i]) ==> !is_delim(s[i - 1])
}

/// A valid relative context: one leading delimiter, then a valid context.
pub open spec fn is_relative_context(s: Seq<char>) -> bool {
    &&& s.len() > 1
    &&& is_delim(s[0])
    &&& is_context(s.skip(1))
}

/// Whether `s` holds a delimiter anywhere.
pub open spec fn has_delim(s: Seq<char>) -> bool {
    exists|i: int| 0 <= i < s.len() && is_delim(#[trigger] s[i])
}

/// The index of the last delimiter of `s`, or `-1` if there is none.
pub open spec fn last_delim_ix(s: Seq<char>) -> int
    decreases s.len(),
{
    if s.len() == 0 {
        -1
    } else if is_delim(s[s.len() - 1]) {
        s.len() - 1
    } else {
        last_delim_ix(s.drop_last())
    }
}

/// A valid symbol: the text through its last delimiter is a valid context,
/// and the text after it is a valid name.
pub open spec fn is_symbol(s: Seq<char>) -> bool {
    &&& has_delim(s)
    &&& is_context(s.take(last_delim_ix(s) + 1))
    &&& is_name(s.skip(last_delim_ix(s) + 1))
}

/// The components of a context-shaped text: the runs between delimiters, in
/// order. The empty run after the final delimiter is not a component.
pub open spec fn components_of(s: Seq<char>) -> Seq<Seq<char>>
    decreases s.len(),
    via components_of_decreases
{
    if !has_delim(s) {
        Seq::empty()
    } else {
        let j = first_delim_ix(s);
        seq![s.take(j)] + components_of(s.skip(j + 1))
    }
}

#[via_fn]
proof fn components_of_decreases(s: Seq<char>) {
    if has_delim(s) {
        lemma_first_delim_ix(s);
    }
}

/// The index of the first delimiter of `s`; meaningful only when `s` has one.
pub open spec fn first_delim_ix(s: Seq<char>) -> int
    decreases s.len(),
{
    if s.len() == 0 {
        0
    } else if is_delim(s[0]) {
        0
    } else {
        1 + first_delim_ix(s.skip(1))
    }
}

/// The context part of a symbol: the text through its last delimiter.
pub open spec fn symbol_context_part(s: Seq<char>) -> Seq<char> {
    s.take(last_delim_ix(s) + 1)
}

/// The name part of a symbol: the text after its last delimiter.
pub open spec fn symbol_name_part(s: Seq<char>) -> Seq<char> {
    s.skip(last_delim_ix(s) + 1)
}

/// The last delimiter index is what its name says: a delimiter stands there,
/// and none stands later.
pub proof fn lemma_last_delim_ix(s: Seq<char>)
    requires
        has_delim(s),
    ensures
        0 <= last_delim_ix(s) < s.len(),
        is_delim(s[last_delim_ix(s)]),
        forall|i: int| last_delim_ix(s) < i < s.len() ==> !is_delim(#[trigger] s[i]),
    decreases s.len(),
{
    if s.len() == 0 {
    } else if is_delim(s[s.len() - 1]) {
    } else {
        let t = s.drop_last();
        assert(t =~= s.take(s.len() - 1));
        let w = choose|i: int| 0 <= i < s.len() && is_delim(#[trigger] s[i]);
        assert(0 <= w < s.len() - 1 && is_delim(t[w]));
        lemma_last_delim_ix(t);
        assert forall|i: int| last_delim_ix(s) < i < s.len() implies !is_delim(#[trigger] s[i]) by {
            if i < s.len() - 1 {
                assert(s[i] == t[i]);
            }
        }
    }
}

/// The first delimiter index is what its name says: a delimiter stands there,
/// and none stands earlier.
pub proof fn lemma_first_delim_ix(s: Seq<char>)
    requires
        has_delim(s),
    ensures
        0 <= first_delim_ix(s) < s.len(),
        is_delim(s[first_delim_ix(s)]),
        forall|i: int| 0 <= i < first_delim_ix(s) ==> !is_delim(#[trigger] s[i]),
    decreases s.len(),
{
    if s.len() == 0 {
    } else if is_delim(s[0]) {
    } else {
        let t = s.skip(1);
        let w = choose|i: int| 0 <= i < s.len() && is_delim(#[trigger] s[i]);
        assert(1 <= w < s.len() && is_delim(t[w - 1]));
        lemma_first_delim_ix(t);
        assert forall|i: int| 0 <= i < first_delim_ix(s) implies !is_delim(#[trigger] s[i]) by {
            if i > 0 {
                assert(s[i] == t[i - 1]);
            }
        }
    }
}

/// A delimiter that no later delimiter follows is the last one.
pub proof fn lemma_last_delim_at(s: Seq<char>, j: int)
    requires
        0 <= j < s.len(),
        is_delim(s[j]),
        forall|i: int| j < i < s.len() ==> !is_delim(#[trigger] s[i]),
    ensures
        last_delim_ix(s) == j,
    decreases s.len(),
{
    if j == s.len() - 1 {
    } else {
        let t = s.drop_last();
        assert(t =~= s.take(s.len() - 1));
        lemma_last_delim_at(t, j);
    }
}

/// A delimiter that no earlier delimiter precedes is the first one.
pub proof fn lemma_first_delim_at(s: Seq<char>, j: int)
    requires
        0 <= j < s.len(),
        is_delim(s[j]),
        forall|i: int| 0 <= i < j ==> !is_delim(#[trigger] s[i]),
    ensures
        first_delim_ix(s) == j,
    decreases s.len(),
{
    if j == 0 {
    } else {
        let t = s.skip(1);
        assert forall|i: int| 0 <= i < j - 1 implies !is_delim(#[trigger] t[i]) by {
            assert(t[i] == s[i + 1]);
        }
        lemma_first_delim_at(t, j - 1);
    }
}

/// A name holds no delimiter.
pub proof fn lemma_name_has_no_delim(s: Seq<char>)
    requires
        is_name(s),
    ensures
        !has_delim(s),
{
    assert forall|i: int| 0 <= i < s.len() implies !is_delim(#[trigger] s[i]) by {
        if i == 0 {
            assert(is_name_start(s[0]));
        } else {
            assert(is_name_char(s[i]));
        }
    }
}

/// A symbol splits at its last delimiter into a valid context and a valid
/// name, and the two parts recombine to the original text.
#[verifier::rlimit(30)]
pub proof fn lemma_symbol_recombine(s: Seq<char>)
    requires
        is_symbol(s),
    ensures
        is_context(symbol_context_part(s)),
        is_name(symbol_name_part(s)),
        symbol_context_part(s) + symbol_name_part(s) == s,
{
    lemma_last_delim_ix(s);
    assert(symbol_context_part(s) + symbol_name_part(s) =~= s);
}

/// A valid name is never a valid symbol: a name holds no delimiter, while a
/// symbol holds at least one.
pub proof fn lemma_name_is_not_symbol(s: Seq<char>)
    requires
        is_name(s),
    ensures
        !is_symbol(s),
{
    lemma_name_has_no_delim(s);
}

/// A single name followed by one delimiter is a context with that name as
/// its only component.
pub proof fn lemma_single_component(n: Seq<char>)
    requires
        is_name(n),
    ensures
        is_context(n + seq!['`']),
        components_of(n + seq!['`']) == seq![n],
{
    let s = n + seq!['`'];
    lemma_name_has_no_delim(n);
    assert forall|i: int| 0 <= i < n.len() implies !is_delim(#[trigger] s[i]) by {
        assert(s[i] == n[i]);
    }
    assert(is_delim(s[s.len() - 1]));
    assert(is_context(s)) by {
        assert(s[0] == n[0]);
        assert forall|i: int|
            0 <= i < s.len() && !is_delim(#[trigger] s[i]) implies is_name_char(s[i]) by {
            if i == 0 {
                assert(is_name_start(n[0]));
            } else if i < n.len() {
                assert(s[i] == n[i]);
            }
        }
    }
    lemma_first_delim_at(s, n.len() as int);
    assert(components_of(s) == seq![s.take(n.len() as int)] + components_of(
        s.skip(n.len() as int + 1),
    ));
    assert(s.take(n.len() as int) =~= n);
    assert(s.skip(n.len() as int + 1) =~= Seq::<char>::empty());
    assert(!has_delim(Seq::<char>::empty()));
    assert(components_of(s) =~= seq![n]);
}

/// Appending a name and a delimiter to a context yields a context again.
pub proof fn lemma_join_is_context(c: Seq<char>, n: Seq<char>)
    requires
        is_context(c),
        is_name(n),
    ensures
        is_context(c + n + seq!['`']),
{
    let s = c + n + seq!['`'];
    let cl = c.len() as int;
    let nl = n.len() as int;
    lemma_name_has_no_delim(n);
    assert(s[0] == c[0]);
    assert(is_delim(s[s.len() - 1]));
    assert forall|i: int|
        0 <= i < s.len() && !is_delim(#[trigger] s[i]) implies is_name_char(s[i]) by {
        if i < cl {
            assert(s[i] == c[i]);
        } else if i < cl + nl {
            assert(s[i] == n[i - cl]);
            if i == cl {
                assert(is_name_start(n[0]));
            }
        }
    }
    assert forall|i: int|
        0 <= i < s.len() && (i == 0 || is_delim(s[i - 1])) && !is_delim(#[trigger] s[i])
            implies is_name_start(s[i]) by {
        if i < cl {
            assert(s[i] == c[i]);
            if i > 0 {
                assert(s[i - 1] == c[i - 1]);
            }
        } else if i < cl + nl {
            assert(s[i] == n[i - cl]);
            if i == cl {
                assert(is_name_start(n[0]));
            } else {
                assert(s[i - 1] == n[i - cl - 1]);
                assert(!is_delim(n[i - cl - 1]));
            }
        }
    }
    assert forall|i: int|
        1 <= i < s.len() && is_delim(#[trigger] s[i]) implies !is_delim(s[i - 1]) by {
        if i < cl {
            assert(s[i] == c[i]);
            assert(s[i - 1] == c[i - 1]);
        } else if i < cl + nl {
            assert(s[i] == n[i - cl]);
        } else {
            assert(i == cl + nl);
            if nl > 0 && i - 1 >= cl {
                assert(s[i - 1] == n[i - 1 - cl]);
            }
        }
    }
}

/// The components of a context that continues past its first delimiter are
/// the first component followed by the components of the rest.
pub proof fn lemma_context_tail(c: Seq<char>)
    requires
        is_context(c),
        first_delim_ix(c) < c.len() - 1,
    ensures
        is_context(c.skip(first_delim_ix(c) + 1)),
    decreases c.len(),
{
    assert(has_delim(c)) by {
        assert(is_delim(c[c.len() - 1]));
    }
    lemma_first_delim_ix(c);
    let j = first_delim_ix(c);
    let t = c.skip(j + 1);
    assert forall|i: int| 0 <= i < t.len() implies t[i] == c[i + j + 1] by {}
    assert(is_delim(t[t.len() - 1]));
    assert(!is_delim(t[0]));
    assert forall|i: int|
        0 <= i < t.len() && !is_delim(#[trigger] t[i]) implies is_name_char(t[i]) by {
        assert(t[i] == c[i + j + 1]);
    }
    assert forall|i: int|
        0 <= i < t.len() && (i == 0 || is_delim(t[i - 1])) && !is_delim(#[trigger] t[i])
            implies is_name_start(t[i]) by {
        assert(t[i] == c[i + j + 1]);
        if i > 0 {
            assert(t[i - 1] == c[i + j]);
        }
    }
    assert forall|i: int|
        1 <= i < t.len() && is_delim(#[trigger] t[i]) implies !is_delim(t[i - 1]) by {
        assert(t[i] == c[i + j + 1]);
        assert(t[i - 1] == c[i + j]);
    }
}

/// Joining one more name onto a context appends exactly that name as a new
/// final component and keeps the earlier components as they were.
pub proof fn lemma_join_components(c: Seq<char>, n: Seq<char>)
    requires
        is_context(c),
        is_name(n),
    ensures
        is_context(c + n + seq!['`']),
        components_of(c + n + seq!['`']) == components_of(c).push(n),
    decreases c.len(),
{
    lemma_join_is_context(c, n);
    lemma_name_has_no_delim(n);
    let s = c + n + seq!['`'];
    let cl = c.len() as int;
    assert(has_delim(c)) by {
        assert(is_delim(c[c.len() - 1]));
    }
    lemma_first_delim_ix(c);
    let j = first_delim_ix(c);
    assert(is_delim(s[j])) by {
        assert(s[j] == c[j]);
    }
    assert forall|i: int| 0 <= i < j implies !is_delim(#[trigger] s[i]) by {
        assert(s[i] == c[i]);
    }
    lemma_first_delim_at(s, j);
    assert(s.take(j) =~= c.take(j));
    if j == cl - 1 {
        // `c` is a single component; the remainder of `s` is `n` + delimiter.
        assert(s.skip(j + 1) =~= n + seq!['`']);
        lemma_single_component(n);
        assert(c.skip(j + 1) =~= Seq::<char>::empty());
        assert(!has_delim(Seq::<char>::empty()));
        assert(components_of(c) == seq![c.take(j)]) by {
            assert(components_of(c) == seq![c.take(j)] + components_of(c.skip(j + 1)));
            assert(seq![c.take(j)] + Seq::<Seq<char>>::empty() =~= seq![c.take(j)]);
        }
        assert(components_of(s) == seq![c.take(j)] + seq![n]);
        assert(seq![c.take(j)] + seq![n] =~= components_of(c).push(n));
    } else {
        lemma_context_tail(c);
        let ct = c.skip(j + 1);
        lemma_join_components(ct, n);
        assert(s.skip(j + 1) =~= ct + n + seq!['`']);
        assert(components_of(s) == seq![c.take(j)] + components_of(ct).push(n));
        assert(components_of(c) == seq![c.take(j)] + components_of(ct));
        assert(seq![c.take(j)] + components_of(ct).push(n) =~= (seq![c.take(j)] + components_of(
            ct,
        )).push(n));
    }
}

} // verus!
