use vstd::prelude::*;

verus! {

/// The lexicographic order on texts: `a` comes strictly before `b` when `a`
/// is a proper prefix of `b`, or when, at the first place where they differ,
/// the character of `a` has the smaller code point.
pub open spec fn lex_lt(a: Seq<char>, b: Seq<char>) -> bool
    decreases a.len(),
{
    if b.len() == 0 {
        false
    } else if a.len() == 0 {
        true
    } else if a[0] == b[0] {
        lex_lt(a.drop_first(), b.drop_first())
    } else {
        a[0] < b[0]
    }
}

/// No text comes before itself.
pub proof fn lemma_lex_irreflexive(a: Seq<char>)
    ensures
        !lex_lt(a, a),
    decreases a.len(),
{
    if a.len() > 0 {
        lemma_lex_irreflexive(a.drop_first());
    }
}

/// Of two texts, at most one comes before the other.
pub proof fn lemma_lex_asymmetric(a: Seq<char>, b: Seq<char>)
    ensures
        !(lex_lt(a, b) && lex_lt(b, a)),
    decreases a.len(),
{
    if a.len() > 0 && b.len() > 0 && a[0] == b[0] {
        lemma_lex_asymmetric(a.drop_first(), b.drop_first());
    }
}

/// What comes before a text comes before everything after that text.
pub proof fn lemma_lex_transitive(a: Seq<char>, b: Seq<char>, c: Seq<char>)
    requires
        lex_lt(a, b),
        lex_lt(b, c),
    ensures
        lex_lt(a, c),
    decreases a.len(),
{
    if a.len() > 0 && b.len() > 0 && c.len() > 0 && a[0] == b[0] && b[0] == c[0] {
        lemma_lex_transitive(a.drop_first(), b.drop_first(), c.drop_first());
    }
}

/// Two different texts are ordered one way or the other.
pub proof fn lemma_lex_total(a: Seq<char>, b: Seq<char>)
    ensures
        a == b || lex_lt(a, b) || lex_lt(b, a),
    decreases a.len(),
{
    if a.len() == 0 || b.len() == 0 {
        if a.len() == 0 && b.len() == 0 {
            assert(a =~= b);
        }
    } else if a[0] == b[0] {
        lemma_lex_total(a.drop_first(), b.drop_first());
        if a.drop_first() == b.drop_first() {
            assert(a =~= seq![a[0]] + a.drop_first());
            assert(b =~= seq![b[0]] + b.drop_first());
        }
    }
}

/// How one text stands to another in the lexicographic order.
#[derive(Clone, Copy, Debug)]
pub enum Placement {
    Before,
    Same,
    After,
}

/// How `a` stands to `b`.
pub open spec fn placement(a: Seq<char>, b: Seq<char>) -> Placement {
    if a == b {
        Placement::Same
    } else if lex_lt(a, b) {
        Placement::Before
    } else {
        Placement::After
    }
}

/// Tells how `text[a_start..a_end]` stands to `text[b_start..b_end]`.
pub fn place_ranges(
    text: &Vec<char>,
    a_start: usize,
    a_end: usize,
    b_start: usize,
    b_end: usize,
) -> (r: Placement)
    requires
        a_start <= a_end <= text.len(),
        b_start <= b_end <= text.len(),
    ensures
        r == placement(
            text@.subrange(a_start as int, a_end as int),
            text@.subrange(b_start as int, b_end as int),
        ),
{
    let ghost a = text@.subrange(a_start as int, a_end as int);
    let ghost b = text@.subrange(b_start as int, b_end as int);
    let a_len: usize = a_end - a_start;
    let b_len: usize = b_end - b_start;
    let mut i: usize = 0;
    proof {
        assert(a.skip(0) =~= a);
        assert(b.skip(0) =~= b);
    }
    while i < a_len && i < b_len && text[a_start + i] == text[b_start + i]
        invariant
            a == text@.subrange(a_start as int, a_end as int),
            b == text@.subrange(b_start as int, b_end as int),
            a_start <= a_end <= text.len(),
            b_start <= b_end <= text.len(),
            a_len == a_end - a_start,
            b_len == b_end - b_start,
            i <= a_len,
            i <= b_len,
            forall|j: int| 0 <= j < i ==> a[j] == b[j],
            lex_lt(a, b) == lex_lt(a.skip(i as int), b.skip(i as int)),
        decreases a_len - i,
    {
        proof {
            assert(a.skip(i as int).drop_first() =~= a.skip(i + 1));
            assert(b.skip(i as int).drop_first() =~= b.skip(i + 1));
        }
        i = i + 1;
    }
    if i == a_len && i == b_len {
        proof {
            assert(a =~= b);
        }
        Placement::Same
    } else if i == a_len {
        Placement::Before
    } else if i == b_len {
        Placement::After
    } else {
        proof {
            assert(a[i as int] != b[i as int]);
        }
        if text[a_start + i] < text[b_start + i] {
            Placement::Before
        } else {
            Placement::After
        }
    }
}

} // verus!
