//! Text predicates of the pipeline: the case-insensitive selection
//! criterion for playlist titles, and the character-wise order on
//! identifier strings that the stores sort by.

use vstd::prelude::*;

verus! {

/// Character `c` is `lower`, case-insensitively: the letter itself or its
/// ASCII upper-case form.
pub open spec fn ci_is(c: char, lower: char, upper: char) -> bool {
    c == lower || c == upper
}

/// The word "recipe" occurs at position `i` of `s`, up to ASCII case.
pub open spec fn recipe_at(s: Seq<char>, i: int) -> bool {
    &&& ci_is(s[i], 'r', 'R')
    &&& ci_is(s[i + 1], 'e', 'E')
    &&& ci_is(s[i + 2], 'c', 'C')
    &&& ci_is(s[i + 3], 'i', 'I')
    &&& ci_is(s[i + 4], 'p', 'P')
    &&& ci_is(s[i + 5], 'e', 'E')
}

/// The selection criterion of the archive: the title, lower-cased, has
/// "recipe" as a substring.
pub open spec fn is_recipe_title(s: Seq<char>) -> bool {
    exists|i: int| 0 <= i && i + 6 <= s.len() && recipe_at(s, i)
}

/// Decides the selection criterion for a title.
pub fn title_selected(s: &str) -> (r: bool)
    ensures
        r == is_recipe_title(s@),
{
    let n = s.unicode_len();
    if n < 6 {
        return false;
    }
    let mut i: usize = 0;
    #[verifier::loop_isolation(false)]
    while i <= n - 6
        invariant
            i <= n - 5,
            forall|j: int| 0 <= j < i ==> !recipe_at(s@, j),
        decreases n - i,
    {
        let c0 = s.get_char(i);
        let c1 = s.get_char(i + 1);
        let c2 = s.get_char(i + 2);
        let c3 = s.get_char(i + 3);
        let c4 = s.get_char(i + 4);
        let c5 = s.get_char(i + 5);
        if (c0 == 'r' || c0 == 'R') && (c1 == 'e' || c1 == 'E') && (c2 == 'c' || c2 == 'C') && (c3
            == 'i' || c3 == 'I') && (c4 == 'p' || c4 == 'P') && (c5 == 'e' || c5 == 'E') {
            assert(recipe_at(s@, i as int));
            return true;
        }
        proof {
            assert(!recipe_at(s@, i as int));
        }
        i = i + 1;
    }
    proof {
        assert(forall|j: int| 0 <= j && j + 6 <= n ==> !recipe_at(s@, j));
    }
    false
}

/// Strict lexicographic order on character sequences, by code point; the
/// order the stores sort identifiers by.
pub open spec fn lex_lt(a: Seq<char>, b: Seq<char>) -> bool
    decreases a.len(),
{
    if b.len() == 0 {
        false
    } else if a.len() == 0 {
        true
    } else if a.first() != b.first() {
        a.first() < b.first()
    } else {
        lex_lt(a.drop_first(), b.drop_first())
    }
}

/// The order is irreflexive.
pub proof fn lemma_lex_lt_irrefl(a: Seq<char>)
    ensures
        !lex_lt(a, a),
    decreases a.len(),
{
    if a.len() > 0 {
        lemma_lex_lt_irrefl(a.drop_first());
    }
}

/// Any two sequences are equal or ordered one way or the other.
pub proof fn lemma_lex_lt_connex(a: Seq<char>, b: Seq<char>)
    ensures
        a == b || lex_lt(a, b) || lex_lt(b, a),
    decreases a.len(),
{
    if a.len() == 0 && b.len() == 0 {
        assert(a =~= b);
    } else if a.len() == 0 || b.len() == 0 {
        assert(lex_lt(a, b) || lex_lt(b, a));
    } else if a.first() != b.first() {
        assert(lex_lt(a, b) || lex_lt(b, a));
    } else {
        lemma_lex_lt_connex(a.drop_first(), b.drop_first());
        if a.drop_first() == b.drop_first() {
            assert(a =~= seq![a.first()] + a.drop_first());
            assert(b =~= seq![b.first()] + b.drop_first());
            assert(a == b);
        }
    }
}

/// The order is transitive.
pub proof fn lemma_lex_lt_trans(a: Seq<char>, b: Seq<char>, c: Seq<char>)
    requires
        lex_lt(a, b),
        lex_lt(b, c),
    ensures
        lex_lt(a, c),
    decreases a.len(),
{
    if a.len() == 0 {
    } else {
        assert(b.len() > 0 && c.len() > 0);
        if a.first() == b.first() && b.first() == c.first() {
            lemma_lex_lt_trans(a.drop_first(), b.drop_first(), c.drop_first());
        }
    }
}

/// Decides the lexicographic order on two strings.
pub fn str_lt(a: &str, b: &str) -> (r: bool)
    ensures
        r == lex_lt(a@, b@),
{
    let an = a.unicode_len();
    let bn = b.unicode_len();
    let mut i: usize = 0;
    proof {
        assert(a@.skip(0) =~= a@);
        assert(b@.skip(0) =~= b@);
    }
    #[verifier::loop_isolation(false)]
    while i < an && i < bn
        invariant
            i <= an,
            i <= bn,
            lex_lt(a@, b@) == lex_lt(a@.skip(i as int), b@.skip(i as int)),
        decreases an - i,
    {
        let ca = a.get_char(i);
        let cb = b.get_char(i);
        proof {
            assert(a@.skip(i as int).first() == a@[i as int]);
            assert(b@.skip(i as int).first() == b@[i as int]);
        }
        if ca != cb {
            return ca < cb;
        }
        proof {
            assert(a@.skip(i as int).drop_first() =~= a@.skip(i as int + 1));
            assert(b@.skip(i as int).drop_first() =~= b@.skip(i as int + 1));
        }
        i = i + 1;
    }
    proof {
        if i == bn {
            assert(b@.skip(i as int).len() == 0);
        } else {
            assert(a@.skip(i as int).len() == 0);
            assert(b@.skip(i as int).len() > 0);
        }
    }
    an < bn
}

} // verus!
