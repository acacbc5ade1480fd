use vstd::prelude::*;
use vstd::string::*;
use vstd::utf8::{encode_utf8_decode_utf8};

verus! {

/// Whether `c` is one of the characters that Unicode gives the property
/// White_Space.
pub open spec fn is_whitespace(c: char) -> bool {
    ||| '\u{9}' <= c <= '\u{D}'
    ||| c == ' '
    ||| c == '\u{85}'
    ||| c == '\u{A0}'
    ||| c == '\u{1680}'
    ||| '\u{2000}' <= c <= '\u{200A}'
    ||| c == '\u{2028}'
    ||| c == '\u{2029}'
    ||| c == '\u{202F}'
    ||| c == '\u{205F}'
    ||| c == '\u{3000}'
}

/// Tells whether `c` is white space.
pub fn is_whitespace_char(c: char) -> (r: bool)
    ensures
        r == is_whitespace(c),
{
    ('\u{9}' <= c && c <= '\u{D}') || c == ' ' || c == '\u{85}' || c == '\u{A0}' || c == '\u{1680}'
        || ('\u{2000}' <= c && c <= '\u{200A}') || c == '\u{2028}' || c == '\u{2029}' || c
        == '\u{202F}' || c == '\u{205F}' || c == '\u{3000}'
}

/// A set of characters that can be stripped from the ends of a text.
#[derive(Clone, Copy, Debug)]
pub enum CharClass {
    /// Every white-space character.
    Whitespace,
    /// The one character given.
    Exactly(char),
}

impl CharClass {
    /// Whether `c` belongs to the class.
    pub open spec fn covers(self, c: char) -> bool {
        match self {
            CharClass::Whitespace => is_whitespace(c),
            CharClass::Exactly(x) => c == x,
        }
    }

    /// Tells whether `c` belongs to the class.
    pub fn check(&self, c: char) -> (r: bool)
        ensures
            r == self.covers(c),
    {
        match *self {
            CharClass::Whitespace => is_whitespace_char(c),
            CharClass::Exactly(x) => c == x,
        }
    }
}

/// `s` without its longest prefix made of characters of `class`.
pub open spec fn strip_start(s: Seq<char>, class: CharClass) -> Seq<char>
    decreases s.len(),
{
    if s.len() > 0 && class.covers(s[0]) {
        strip_start(s.drop_first(), class)
    } else {
        s
    }
}

/// `s` without its longest suffix made of characters of `class`.
pub open spec fn strip_end(s: Seq<char>, class: CharClass) -> Seq<char>
    decreases s.len(),
{
    if s.len() > 0 && class.covers(s.last()) {
        strip_end(s.drop_last(), class)
    } else {
        s
    }
}

/// `s` with the characters of `class` removed from both ends.
pub open spec fn strip(s: Seq<char>, class: CharClass) -> Seq<char> {
    strip_end(strip_start(s, class), class)
}

/// `s` with white space removed from both ends.
pub open spec fn trim(s: Seq<char>) -> Seq<char> {
    strip(s, CharClass::Whitespace)
}

/// The pieces of `s` between the occurrences of `sep`, in order. There is
/// always at least one piece, and a piece may be empty.
pub open spec fn split(s: Seq<char>, sep: char) -> Seq<Seq<char>>
    decreases s.len(),
{
    match s.index_of_first(sep) {
        Some(i) => if 0 <= i < s.len() {
            seq![s.take(i)] + split(s.skip(i + 1), sep)
        } else {
            seq![s]
        },
        None => seq![s],
    }
}

/// `pieces` written one after the other with `sep` between them.
pub open spec fn join(pieces: Seq<Seq<char>>, sep: char) -> Seq<char>
    decreases pieces.len(),
{
    if pieces.len() == 0 {
        Seq::empty()
    } else if pieces.len() == 1 {
        pieces[0]
    } else {
        pieces[0] + seq![sep] + join(pieces.drop_first(), sep)
    }
}

/// Texts that hold no separator are the pieces of their join: `split`
/// undoes `join`.
pub proof fn lemma_split_of_join(pieces: Seq<Seq<char>>, sep: char)
    requires
        pieces.len() >= 1,
        forall|i: int| 0 <= i < pieces.len() ==> !(#[trigger] pieces[i]).contains(sep),
    ensures
        split(join(pieces, sep), sep) == pieces,
    decreases pieces.len(),
{
    let s = join(pieces, sep);
    s.index_of_first_ensures(sep);
    if pieces.len() == 1 {
        assert(split(s, sep) =~= pieces);
    } else {
        let head = pieces[0];
        let rest = pieces.drop_first();
        assert forall|i: int| 0 <= i < rest.len() implies !(#[trigger] rest[i]).contains(sep) by {
            assert(rest[i] == pieces[i + 1]);
        }
        lemma_split_of_join(rest, sep);
        let at = head.len() as int;
        assert(s[at] == sep);
        assert forall|j: int| 0 <= j < at implies s[j] != sep by {
            assert(s[j] == head[j]);
        }
        assert(s.index_of_first(sep) == Some(at));
        assert(s.take(at) =~= head);
        assert(s.skip(at + 1) =~= join(rest, sep));
        assert(split(s, sep) =~= pieces);
    }
}

/// The characters of `s`, one element each.
pub fn to_chars(s: &str) -> (chars: Vec<char>)
    ensures
        chars@ == s@,
{
    let mut chars: Vec<char> = Vec::new();
    for c in it: s.chars()
        invariant
            chars@ == it.seq().take(it.index() as int),
    {
        chars.push(c);
    }
    chars
}

/// Where `c` first occurs in `text[start..end]`, as an index into `text`;
/// `end` when it does not occur there.
pub fn find_char(text: &Vec<char>, start: usize, end: usize, c: char) -> (at: usize)
    requires
        start <= end <= text.len(),
    ensures
        start <= at <= end,
        match text@.subrange(start as int, end as int).index_of_first(c) {
            Some(i) => at == start + i,
            None => at == end,
        },
{
    let ghost part = text@.subrange(start as int, end as int);
    let mut at: usize = start;
    while at < end && text[at] != c
        invariant
            start <= at <= end <= text.len(),
            part == text@.subrange(start as int, end as int),
            forall|j: int| 0 <= j < at - start ==> part[j] != c,
        decreases end - at,
    {
        at = at + 1;
    }
    proof {
        part.index_of_first_ensures(c);
        if at < end {
            assert(part[at - start] == c);
        }
    }
    at
}

/// The bounds, within `text`, of `text[start..end]` with the characters of
/// `class` stripped from both ends.
pub fn strip_range(text: &Vec<char>, start: usize, end: usize, class: CharClass) -> (r: (
    usize,
    usize,
))
    requires
        start <= end <= text.len(),
    ensures
        start <= r.0 <= r.1 <= end,
        r.0 == end - strip_start(text@.subrange(start as int, end as int), class).len(),
        text@.subrange(r.0 as int, r.1 as int) == strip(
            text@.subrange(start as int, end as int),
            class,
        ),
{
    let mut a: usize = start;
    while a < end && class.check(text[a])
        invariant
            start <= a <= end <= text.len(),
            strip_start(text@.subrange(a as int, end as int), class) == strip_start(
                text@.subrange(start as int, end as int),
                class,
            ),
        decreases end - a,
    {
        proof {
            assert(text@.subrange(a as int, end as int).drop_first() =~= text@.subrange(
                a + 1,
                end as int,
            ));
        }
        a = a + 1;
    }
    let mut b: usize = end;
    while b > a && class.check(text[b - 1])
        invariant
            a <= b <= end <= text.len(),
            strip_end(text@.subrange(a as int, b as int), class) == strip_end(
                text@.subrange(a as int, end as int),
                class,
            ),
        decreases b - a,
    {
        proof {
            assert(text@.subrange(a as int, b as int).drop_last() =~= text@.subrange(
                a as int,
                b - 1,
            ));
        }
        b = b - 1;
    }
    (a, b)
}

/// Tells whether two texts hold the same characters.
pub fn str_eq(a: &str, b: &str) -> (r: bool)
    ensures
        r == (a@ == b@),
{
    let x = a.as_bytes();
    let y = b.as_bytes();
    proof {
        encode_utf8_decode_utf8(a@);
        encode_utf8_decode_utf8(b@);
    }
    if x.len() != y.len() {
        return false;
    }
    let mut i: usize = 0;
    while i < x.len()
        invariant
            x@ == a.spec_bytes(),
            y@ == b.spec_bytes(),
            x@.len() == y@.len(),
            i <= x@.len(),
            forall|j: int| 0 <= j < i ==> x@[j] == y@[j],
        decreases x.len() - i,
    {
        if x[i] != y[i] {
            return false;
        }
        i = i + 1;
    }
    proof {
        assert(x@ =~= y@);
    }
    true
}

/// The ten digits, each at the index that it stands for.
pub open spec fn digits() -> Seq<char> {
    seq!['0', '1', '2', '3', '4', '5', '6', '7', '8', '9']
}

/// The decimal numeral of `n`, without leading zeros.
pub open spec fn decimal(n: nat) -> Seq<char>
    decreases n,
{
    if n < 10 {
        seq![digits()[n as int]]
    } else {
        decimal(n / 10).push(digits()[(n % 10) as int])
    }
}

/// The numeral of one digit.
fn digit_str(digit: u16) -> (r: &'static str)
    requires
        digit < 10,
    ensures
        r@ == seq![digits()[digit as int]],
{
    proof {
        reveal_strlit("0");
        reveal_strlit("1");
        reveal_strlit("2");
        reveal_strlit("3");
        reveal_strlit("4");
        reveal_strlit("5");
        reveal_strlit("6");
        reveal_strlit("7");
        reveal_strlit("8");
        reveal_strlit("9");
    }
    let r = if digit == 0 {
        "0"
    } else if digit == 1 {
        "1"
    } else if digit == 2 {
        "2"
    } else if digit == 3 {
        "3"
    } else if digit == 4 {
        "4"
    } else if digit == 5 {
        "5"
    } else if digit == 6 {
        "6"
    } else if digit == 7 {
        "7"
    } else if digit == 8 {
        "8"
    } else {
        "9"
    };
    assert(r@ =~= seq![digits()[digit as int]]);
    r
}

/// Writes the decimal numeral of `n` at the end of `out`.
pub fn append_decimal(out: &mut String, n: u16)
    ensures
        final(out)@ == old(out)@ + decimal(n as nat),
    decreases n,
{
    if n >= 10 {
        append_decimal(out, n / 10);
    }
    out.append(digit_str(n % 10));
    proof {
        if n >= 10 {
            assert(out@ =~= old(out)@ + decimal(n as nat));
        }
    }
}

} // verus!
