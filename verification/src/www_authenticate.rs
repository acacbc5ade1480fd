use crate::error::{ContainerError, ContainerErrorView};
use crate::listing::{
    has_sorted_listing, is_sorted_listing, lemma_empty_has_listing, lemma_insert_has_listing,
    lemma_listing_put, lemma_listing_remove, lemma_remove_has_listing, lemma_sorted_listing_is,
    lemma_sorted_listing_lists, listing_put, sorted_listing,
};
use crate::order::{lemma_lex_irreflexive, lex_lt, place_ranges, Placement};
use crate::text::{
    find_char, join, lemma_split_of_join, split, strip, strip_range, to_chars, trim, CharClass,
};
use vstd::prelude::*;
use vstd::string::*;

verus! {

/// The scheme that a challenge must open with, its trailing space included.
pub open spec fn bearer_prefix() -> Seq<char> {
    seq!['B', 'e', 'a', 'r', 'e', 'r', ' ']
}

/// The name of the parameter that holds the address of the token service.
pub open spec fn realm_key() -> Seq<char> {
    seq!['r', 'e', 'a', 'l', 'm']
}

/// The name and the value that one part of a challenge binds: what stands
/// before its first `=`, trimmed, and what stands after it, trimmed and then
/// freed of the double quotes at its ends. `None` when the part has no `=`.
pub open spec fn parameter(part: Seq<char>) -> Option<(Seq<char>, Seq<char>)> {
    match part.index_of_first('=') {
        Some(eq) => Some(
            (trim(part.take(eq)), strip(trim(part.skip(eq + 1)), CharClass::Exactly('"'))),
        ),
        None => None,
    }
}

/// The parameters that the parts of a challenge bind, taken in order, so
/// that of two parts with one name the later one counts. Empty parts bind
/// nothing. `None` when a part that is not empty has no `=`.
pub open spec fn parameters(parts: Seq<Seq<char>>) -> Option<Map<Seq<char>, Seq<char>>>
    decreases parts.len(),
{
    if parts.len() == 0 {
        Some(Map::empty())
    } else {
        match parameters(parts.drop_last()) {
            Some(bound) => if parts.last().len() == 0 {
                Some(bound)
            } else {
                match parameter(parts.last()) {
                    Some((name, value)) => Some(bound.insert(name, value)),
                    None => None,
                }
            },
            None => None,
        }
    }
}

/// The query string that hands `pairs` on in the order given: `?` before
/// the first pair, `&` before every other, `=` between a name and its
/// value. Empty when there is no pair.
pub open spec fn query_string(pairs: Seq<(Seq<char>, Seq<char>)>) -> Seq<char>
    decreases pairs.len(),
{
    if pairs.len() == 0 {
        Seq::empty()
    } else {
        query_string(pairs.drop_last()) + seq![if pairs.len() == 1 {
            '?'
        } else {
            '&'
        }] + pairs.last().0 + seq!['='] + pairs.last().1
    }
}

/// The address at which a token is asked for, given the parameters of a
/// challenge: the realm, followed by every other parameter as a query
/// string, in the lexicographic order of the names.
pub open spec fn token_url(params: Map<Seq<char>, Seq<char>>) -> Result<
    Seq<char>,
    ContainerErrorView,
> {
    if params.contains_key(realm_key()) {
        Ok(params[realm_key()] + query_string(sorted_listing(params.remove(realm_key()))))
    } else {
        Err(ContainerErrorView::Auth("Missing ww-auth realm param"@))
    }
}

/// What a challenge with the given parts, the scheme left aside, comes to.
pub open spec fn challenge_url(parts: Seq<Seq<char>>) -> Result<Seq<char>, ContainerErrorView> {
    match parameters(parts) {
        Some(params) => token_url(params),
        None => Err(ContainerErrorView::Auth("Missing www-auth param value"@)),
    }
}

/// What the value of a `WWW-Authenticate` header comes to: the address at
/// which a token is asked for, or the reason why the header is of no use.
pub open spec fn parse_www_authenticate_spec(header: Seq<char>) -> Result<
    Seq<char>,
    ContainerErrorView,
> {
    if bearer_prefix().is_prefix_of(header) {
        challenge_url(split(header.skip(7), ','))
    } else {
        Err(ContainerErrorView::Auth("Invalid auth type"@))
    }
}

/// A stretch of the header, by the indices of its first character and of
/// the character after its last.
#[derive(Clone, Copy)]
struct Span {
    start: usize,
    end: usize,
}

/// A parameter of the challenge, as the places of its name and value.
#[derive(Clone, Copy)]
struct Param {
    name: Span,
    value: Span,
}

impl Span {
    spec fn within(self, text: Seq<char>) -> bool {
        self.start <= self.end <= text.len()
    }

    spec fn of(self, text: Seq<char>) -> Seq<char> {
        text.subrange(self.start as int, self.end as int)
    }
}

impl Param {
    spec fn within(self, text: Seq<char>) -> bool {
        self.name.within(text) && self.value.within(text)
    }

    spec fn of(self, text: Seq<char>) -> (Seq<char>, Seq<char>) {
        (self.name.of(text), self.value.of(text))
    }
}

spec fn all_within(params: Seq<Param>, text: Seq<char>) -> bool {
    forall|i: int| 0 <= i < params.len() ==> (#[trigger] params[i]).within(text)
}

spec fn pairs_of(params: Seq<Param>, text: Seq<char>) -> Seq<(Seq<char>, Seq<char>)> {
    Seq::new(params.len(), |i: int| params[i].of(text))
}

/// Once a part fails to bind a parameter, no later part mends it.
proof fn lemma_parameters_fail(done: Seq<Seq<char>>, more: Seq<Seq<char>>)
    requires
        parameters(done) is None,
    ensures
        parameters(done + more) is None,
    decreases more.len(),
{
    if more.len() == 0 {
        assert(done + more =~= done);
    } else {
        lemma_parameters_fail(done, more.drop_last());
        assert((done + more).drop_last() =~= done + more.drop_last());
    }
}

fn has_bearer_prefix(text: &Vec<char>) -> (r: bool)
    ensures
        r == bearer_prefix().is_prefix_of(text@),
{
    let r = text.len() >= 7 && text[0] == 'B' && text[1] == 'e' && text[2] == 'a' && text[3] == 'r'
        && text[4] == 'e' && text[5] == 'r' && text[6] == ' ';
    proof {
        if r {
            assert(bearer_prefix() =~= text@.subrange(0, 7));
        } else if text.len() >= 7 {
            let head = text@.subrange(0, 7);
            assert(head[0] == text[0] && head[1] == text[1] && head[2] == text[2] && head[3]
                == text[3] && head[4] == text[4] && head[5] == text[5] && head[6] == text[6]);
        }
    }
    r
}

fn is_realm(text: &Vec<char>, name: Span) -> (r: bool)
    requires
        name.within(text@),
    ensures
        r == (name.of(text@) == realm_key()),
{
    let r = name.end - name.start == 5 && text[name.start] == 'r' && text[name.start + 1] == 'e'
        && text[name.start + 2] == 'a' && text[name.start + 3] == 'l' && text[name.start + 4]
        == 'm';
    proof {
        let key = name.of(text@);
        if r {
            assert(key =~= realm_key());
        } else if key.len() == 5 {
            assert(key[0] == text[name.start as int] && key[1] == text[name.start + 1] && key[2]
                == text[name.start + 2] && key[3] == text[name.start + 3] && key[4]
                == text[name.start + 4]);
        }
    }
    r
}

/// Binds the name of `param` to its value in `params`, which stay sorted by
/// name.
fn put(
    params: &mut Vec<Param>,
    text: &Vec<char>,
    param: Param,
    Ghost(bound): Ghost<Map<Seq<char>, Seq<char>>>,
)
    requires
        all_within(old(params)@, text@),
        param.within(text@),
        is_sorted_listing(pairs_of(old(params)@, text@), bound),
    ensures
        all_within(final(params)@, text@),
        is_sorted_listing(
            pairs_of(final(params)@, text@),
            bound.insert(param.name.of(text@), param.value.of(text@)),
        ),
{
    let ghost before = pairs_of(params@, text@);
    let ghost key = param.name.of(text@);
    let mut at: usize = 0;
    let mut found: bool = false;
    let mut same: bool = false;
    while at < params.len() && !found
        invariant
            params@ == old(params)@,
            all_within(params@, text@),
            param.within(text@),
            before == pairs_of(params@, text@),
            key == param.name.of(text@),
            at <= params.len(),
            forall|i: int| 0 <= i < at ==> lex_lt((#[trigger] before[i]).0, key),
            found ==> at < params.len() && !lex_lt(before[at as int].0, key) && same == (
            before[at as int].0 == key),
            !found ==> !same,
        decreases params.len() - at + (if found { 0int } else { 1int }),
    {
        let here = params[at];
        proof {
            assert(before[at as int] == here.of(text@));
            lemma_lex_irreflexive(key);
        }
        match place_ranges(
            text,
            here.name.start,
            here.name.end,
            param.name.start,
            param.name.end,
        ) {
            Placement::Before => {
                at = at + 1;
            },
            Placement::Same => {
                found = true;
                same = true;
            },
            Placement::After => {
                found = true;
            },
        }
    }
    if same {
        params.set(at, param);
    } else {
        params.insert(at, param);
    }
    proof {
        lemma_listing_put(before, bound, at as int, key, param.value.of(text@));
        assert(pairs_of(params@, text@) =~= listing_put(
            before,
            at as int,
            key,
            param.value.of(text@),
        ));
    }
}

/// The parameters that the challenge in `text` binds, sorted by name; `None`
/// when one of its parts binds none.
fn collect(text: &Vec<char>) -> (r: Option<Vec<Param>>)
    requires
        7 <= text.len(),
    ensures
        match (r, parameters(split(text@.skip(7), ','))) {
            (Some(params), Some(bound)) => all_within(params@, text@) && is_sorted_listing(
                pairs_of(params@, text@),
                bound,
            ),
            (None, None) => true,
            _ => false,
        },
{
    let ghost whole = split(text@.skip(7), ',');
    let ghost mut done: Seq<Seq<char>> = Seq::empty();
    let ghost mut bound: Map<Seq<char>, Seq<char>> = Map::empty();
    let mut params: Vec<Param> = Vec::new();
    let mut pos: usize = 7;
    let mut more: bool = true;
    proof {
        assert(done + whole =~= whole);
    }
    while more
        invariant
            7 <= pos <= text.len(),
            whole == split(text@.skip(7), ','),
            more ==> whole == done + split(text@.skip(pos as int), ','),
            !more ==> whole == done,
            parameters(done) == Some(bound),
            all_within(params@, text@),
            is_sorted_listing(pairs_of(params@, text@), bound),
        decreases text.len() - pos + (if more { 1int } else { 0int }),
    {
        let end = find_char(text, pos, text.len(), ',');
        let ghost part = text@.subrange(pos as int, end as int);
        let ghost tail = text@.skip(pos as int);
        let ghost after: Seq<Seq<char>> = if end < text.len() {
            split(text@.skip(end + 1), ',')
        } else {
            Seq::empty()
        };
        proof {
            tail.index_of_first_ensures(',');
            if end < text.len() {
                assert(tail.take(end - pos) =~= part);
                assert(tail.skip(end - pos + 1) =~= text@.skip(end + 1));
            } else {
                assert(tail =~= part);
            }
            assert(split(tail, ',') =~= seq![part] + after);
            assert(whole =~= done.push(part) + after);
            assert(done.push(part).drop_last() =~= done);
        }
        if end > pos {
            let eq = find_char(text, pos, end, '=');
            if eq == end {
                proof {
                    part.index_of_first_ensures('=');
                    assert(parameter(part) is None);
                    assert(done.push(part).last() == part);
                    assert(parameters(done.push(part)) is None);
                    lemma_parameters_fail(done.push(part), after);
                }
                return None;
            }
            let name = strip_range(text, pos, eq, CharClass::Whitespace);
            let inner = strip_range(text, eq + 1, end, CharClass::Whitespace);
            let value = strip_range(text, inner.0, inner.1, CharClass::Exactly('"'));
            let param = Param {
                name: Span { start: name.0, end: name.1 },
                value: Span { start: value.0, end: value.1 },
            };
            proof {
                part.index_of_first_ensures('=');
                assert(part.take(eq - pos) =~= text@.subrange(pos as int, eq as int));
                assert(part.skip(eq - pos + 1) =~= text@.subrange(eq + 1, end as int));
                assert(parameter(part) == Some(param.of(text@)));
            }
            put(&mut params, text, param, Ghost(bound));
            proof {
                bound = bound.insert(param.name.of(text@), param.value.of(text@));
            }
        }
        proof {
            done = done.push(part);
        }
        if end < text.len() {
            pos = end + 1;
        } else {
            more = false;
        }
    }
    Some(params)
}

/// Takes the realm out of `params` and returns the place of its value;
/// `None`, with nothing taken, when there is no realm.
fn take_realm(
    params: &mut Vec<Param>,
    text: &Vec<char>,
    Ghost(bound): Ghost<Map<Seq<char>, Seq<char>>>,
) -> (r: Option<Span>)
    requires
        all_within(old(params)@, text@),
        is_sorted_listing(pairs_of(old(params)@, text@), bound),
    ensures
        all_within(final(params)@, text@),
        match r {
            Some(realm) => {
                &&& bound.contains_key(realm_key())
                &&& realm.within(text@)
                &&& realm.of(text@) == bound[realm_key()]
                &&& is_sorted_listing(
                    pairs_of(final(params)@, text@),
                    bound.remove(realm_key()),
                )
            },
            None => !bound.contains_key(realm_key()),
        },
{
    let ghost before = pairs_of(params@, text@);
    let mut at: usize = 0;
    while at < params.len()
        invariant
            params@ == old(params)@,
            all_within(params@, text@),
            before == pairs_of(params@, text@),
            is_sorted_listing(before, bound),
            at <= params.len(),
            forall|i: int| 0 <= i < at ==> (#[trigger] before[i]).0 != realm_key(),
        decreases params.len() - at,
    {
        let here = params[at];
        assert(before[at as int] == here.of(text@));
        if is_realm(text, here.name) {
            params.remove(at);
            proof {
                lemma_listing_remove(before, bound, at as int);
                assert(pairs_of(params@, text@) =~= before.remove(at as int));
            }
            return Some(here.value);
        }
        at = at + 1;
    }
    None
}

/// The token address: the realm, then `params` as a query string.
fn render(header: &str, text: &Vec<char>, realm: Span, params: &Vec<Param>) -> (out: String)
    requires
        text@ == header@,
        realm.within(text@),
        all_within(params@, text@),
    ensures
        out@ == realm.of(text@) + query_string(pairs_of(params@, text@)),
{
    let ghost pairs = pairs_of(params@, text@);
    let mut out = String::from_str(header.substring_char(realm.start, realm.end));
    let mut i: usize = 0;
    proof {
        reveal_strlit("?");
        reveal_strlit("&");
        reveal_strlit("=");
        assert("?"@ =~= seq!['?']);
        assert("&"@ =~= seq!['&']);
        assert("="@ =~= seq!['=']);
        assert(pairs.take(0) =~= Seq::empty());
    }
    while i < params.len()
        invariant
            text@ == header@,
            all_within(params@, text@),
            pairs == pairs_of(params@, text@),
            i <= params.len(),
            out@ == realm.of(text@) + query_string(pairs.take(i as int)),
            "?"@ == seq!['?'],
            "&"@ == seq!['&'],
            "="@ == seq!['='],
        decreases params.len() - i,
    {
        let param = params[i];
        let ghost so_far = out@;
        if i == 0 {
            out.append("?");
        } else {
            out.append("&");
        }
        out.append(header.substring_char(param.name.start, param.name.end));
        out.append("=");
        out.append(header.substring_char(param.value.start, param.value.end));
        proof {
            let next = pairs.take(i + 1);
            assert(next.drop_last() =~= pairs.take(i as int));
            assert(next.last() == param.of(text@));
            assert(out@ =~= realm.of(text@) + query_string(next));
        }
        i = i + 1;
    }
    proof {
        assert(pairs.take(i as int) =~= pairs);
    }
    out
}

/// Reads the value of a `WWW-Authenticate` header and returns the address
/// at which the token is to be asked for.
///
/// The value must open with `Bearer `. What follows is a list of parts
/// separated by commas, each `name=value`; white space around a name or a
/// value does not count, nor do double quotes around a value, and of two
/// parts with one name the later one counts. The address is the value of
/// `realm`, followed by the other parameters as a query string in the
/// lexicographic order of their names.
pub fn parse_www_authenticate(header: &str) -> (r: Result<String, ContainerError>)
    ensures
        match r {
            Ok(url) => parse_www_authenticate_spec(header@) == Ok::<Seq<char>, ContainerErrorView>(
                url@,
            ),
            Err(e) => parse_www_authenticate_spec(header@) == Err::<Seq<char>, ContainerErrorView>(
                e@,
            ),
        },
{
    let text = to_chars(header);
    if !has_bearer_prefix(&text) {
        return Err(ContainerError::Auth("Invalid auth type"));
    }
    let ghost bound = parameters(split(header@.skip(7), ','));
    let mut params = match collect(&text) {
        Some(params) => params,
        None => {
            return Err(ContainerError::Auth("Missing www-auth param value"));
        },
    };
    let realm = match take_realm(&mut params, &text, Ghost(bound->0)) {
        Some(realm) => realm,
        None => {
            return Err(ContainerError::Auth("Missing ww-auth realm param"));
        },
    };
    proof {
        lemma_sorted_listing_is(pairs_of(params@, text@), bound->0.remove(realm_key()));
    }
    Ok(render(header, &text, realm, &params))
}

/// The name that `part` binds; meant for a part with an `=`.
pub open spec fn name_in(part: Seq<char>) -> Seq<char> {
    match parameter(part) {
        Some((name, _)) => name,
        None => Seq::empty(),
    }
}

/// The value that `part` binds its name to; meant for a part with an `=`.
pub open spec fn value_in(part: Seq<char>) -> Seq<char> {
    match parameter(part) {
        Some((_, value)) => value,
        None => Seq::empty(),
    }
}

/// Whether `part` binds `name` to some value.
pub open spec fn binds(part: Seq<char>, name: Seq<char>) -> bool {
    part.len() > 0 && parameter(part) is Some && name_in(part) == name
}

/// Whether `part` is not empty and yet has no `=`, so that it binds nothing.
pub open spec fn lacks_value(part: Seq<char>) -> bool {
    part.len() > 0 && parameter(part) is None
}

/// Whether `parts[i]` is the last of `parts` that binds `name`.
pub open spec fn binds_last(parts: Seq<Seq<char>>, i: int, name: Seq<char>) -> bool {
    &&& 0 <= i < parts.len()
    &&& binds(parts[i], name)
    &&& forall|j: int| i < j < parts.len() ==> !binds(#[trigger] parts[j], name)
}

/// Whether no two of `parts` bind one name.
pub open spec fn each_name_once(parts: Seq<Seq<char>>) -> bool {
    forall|i: int, j: int, name: Seq<char>|
        0 <= i < j < parts.len() ==> !(#[trigger] binds(parts[i], name) && #[trigger] binds(
            parts[j],
            name,
        ))
}

/// A header that does not open with `Bearer ` is refused as being of the
/// wrong kind, whatever else it holds.
pub proof fn lemma_other_schemes_refused(header: Seq<char>)
    requires
        !bearer_prefix().is_prefix_of(header),
    ensures
        parse_www_authenticate_spec(header) == Err::<Seq<char>, ContainerErrorView>(
            ContainerErrorView::Auth("Invalid auth type"@),
        ),
{
}

/// The parts of a challenge bind their parameters unless one of them, not
/// empty, has no `=`: then the challenge is refused for the missing value.
pub proof fn lemma_value_is_mandatory(parts: Seq<Seq<char>>)
    ensures
        parameters(parts) is None <==> exists|i: int|
            0 <= i < parts.len() && lacks_value(#[trigger] parts[i]),
        parameters(parts) is None ==> challenge_url(parts) == Err::<
            Seq<char>,
            ContainerErrorView,
        >(ContainerErrorView::Auth("Missing www-auth param value"@)),
    decreases parts.len(),
{
    if parts.len() > 0 {
        let front = parts.drop_last();
        lemma_value_is_mandatory(front);
        if parameters(front) is None {
            let i = choose|i: int| 0 <= i < front.len() && lacks_value(#[trigger] front[i]);
            assert(lacks_value(parts[i]));
        } else if lacks_value(parts.last()) {
            assert(lacks_value(parts[parts.len() - 1]));
        } else {
            assert forall|i: int| 0 <= i < parts.len() implies !lacks_value(
                #[trigger] parts[i],
            ) by {
                if i < front.len() {
                    assert(parts[i] == front[i]);
                }
            }
        }
    }
}

/// Of the parts that bind one name, the last one counts.
pub proof fn lemma_last_binding_counts(parts: Seq<Seq<char>>, i: int, name: Seq<char>)
    requires
        parameters(parts) is Some,
        binds_last(parts, i, name),
    ensures
        parameters(parts)->0.contains_pair(name, value_in(parts[i])),
    decreases parts.len(),
{
    let front = parts.drop_last();
    if i < parts.len() - 1 {
        assert(!binds(parts[parts.len() - 1], name));
        assert(front[i] == parts[i]);
        assert forall|j: int| i < j < front.len() implies !binds(#[trigger] front[j], name) by {
            assert(front[j] == parts[j]);
        }
        lemma_last_binding_counts(front, i, name);
    }
}

/// A name is bound only where some part binds it.
pub proof fn lemma_bound_by_a_part(parts: Seq<Seq<char>>, name: Seq<char>)
    requires
        parameters(parts) is Some,
        parameters(parts)->0.contains_key(name),
    ensures
        exists|i: int| binds_last(parts, i, name),
    decreases parts.len(),
{
    let front = parts.drop_last();
    let last = parts.len() - 1;
    if binds(parts[last], name) {
        assert(binds_last(parts, last, name));
    } else {
        lemma_bound_by_a_part(front, name);
        let i = choose|i: int| binds_last(front, i, name);
        assert(parts[i] == front[i]);
        assert forall|j: int| i < j < parts.len() implies !binds(#[trigger] parts[j], name) by {
            if j < last {
                assert(front[j] == parts[j]);
            }
        }
        assert(binds_last(parts, i, name));
    }
}

/// A challenge none of whose parts binds `realm` is refused for the missing
/// realm.
pub proof fn lemma_realm_is_mandatory(parts: Seq<Seq<char>>)
    requires
        parameters(parts) is Some,
        forall|i: int| 0 <= i < parts.len() ==> !binds(#[trigger] parts[i], realm_key()),
    ensures
        challenge_url(parts) == Err::<Seq<char>, ContainerErrorView>(
            ContainerErrorView::Auth("Missing ww-auth realm param"@),
        ),
{
    if parameters(parts)->0.contains_key(realm_key()) {
        lemma_bound_by_a_part(parts, realm_key());
    }
}

/// What `from` binds, `to` binds too, where every part of `from` is a part
/// of `to` and `to` binds no name twice.
proof fn lemma_bound_alike(from: Seq<Seq<char>>, to: Seq<Seq<char>>, name: Seq<char>)
    requires
        parameters(from) is Some,
        parameters(to) is Some,
        forall|part: Seq<char>| from.contains(part) ==> to.contains(part),
        each_name_once(to),
        parameters(from)->0.contains_key(name),
    ensures
        parameters(to)->0.contains_pair(name, parameters(from)->0[name]),
{
    lemma_bound_by_a_part(from, name);
    let i = choose|i: int| binds_last(from, i, name);
    lemma_last_binding_counts(from, i, name);
    assert(from.contains(from[i]));
    let j = choose|j: int| 0 <= j < to.len() && to[j] == from[i];
    assert(binds(to[j], name));
    assert(binds_last(to, j, name)) by {
        assert forall|k: int| j < k < to.len() implies !binds(#[trigger] to[k], name) by {
            if binds(to[k], name) {
                assert(binds(to[j], name) && binds(to[k], name));
            }
        }
    }
    lemma_last_binding_counts(to, j, name);
}

/// The order of the parts is immaterial: two challenges made of the same
/// parts, neither binding a name twice, come to the same, whatever the
/// order in which each lists them.
pub proof fn lemma_order_is_immaterial(p: Seq<Seq<char>>, q: Seq<Seq<char>>)
    requires
        forall|part: Seq<char>| p.contains(part) <==> q.contains(part),
        each_name_once(p),
        each_name_once(q),
    ensures
        parameters(p) == parameters(q),
        challenge_url(p) == challenge_url(q),
{
    lemma_value_is_mandatory(p);
    lemma_value_is_mandatory(q);
    if parameters(p) is None {
        let i = choose|i: int| 0 <= i < p.len() && lacks_value(#[trigger] p[i]);
        assert(p.contains(p[i]));
        let j = choose|j: int| 0 <= j < q.len() && q[j] == p[i];
        assert(lacks_value(q[j]));
    } else if parameters(q) is None {
        let i = choose|i: int| 0 <= i < q.len() && lacks_value(#[trigger] q[i]);
        assert(q.contains(q[i]));
        let j = choose|j: int| 0 <= j < p.len() && p[j] == q[i];
        assert(lacks_value(p[j]));
    } else {
        let bp = parameters(p)->0;
        let bq = parameters(q)->0;
        assert forall|name: Seq<char>| bp.contains_key(name) implies bq.contains_pair(
            name,
            bp[name],
        ) by {
            lemma_bound_alike(p, q, name);
        }
        assert forall|name: Seq<char>| bq.contains_key(name) implies bp.contains_pair(
            name,
            bq[name],
        ) by {
            lemma_bound_alike(q, p, name);
        }
        assert(bp =~= bq);
    }
}

/// The header that lists `parts`, with commas between them, after
/// `Bearer `.
pub open spec fn header_of(parts: Seq<Seq<char>>) -> Seq<char> {
    bearer_prefix() + join(parts, ',')
}

/// A header made of parts that hold no comma is read as the challenge with
/// those parts.
pub proof fn lemma_header_of_parts(parts: Seq<Seq<char>>)
    requires
        parts.len() >= 1,
        forall|i: int| 0 <= i < parts.len() ==> !(#[trigger] parts[i]).contains(','),
    ensures
        parse_www_authenticate_spec(header_of(parts)) == challenge_url(parts),
{
    let header = header_of(parts);
    assert(bearer_prefix() =~= header.subrange(0, 7));
    assert(header.skip(7) =~= join(parts, ','));
    lemma_split_of_join(parts, ',');
}

/// The order in which a header lists its parts is immaterial: two headers
/// that list the same parts after `Bearer `, neither binding a name twice,
/// are read alike.
pub proof fn lemma_header_order_is_immaterial(p: Seq<Seq<char>>, q: Seq<Seq<char>>)
    requires
        p.len() >= 1,
        q.len() >= 1,
        forall|i: int| 0 <= i < p.len() ==> !(#[trigger] p[i]).contains(','),
        forall|part: Seq<char>| p.contains(part) <==> q.contains(part),
        each_name_once(p),
        each_name_once(q),
    ensures
        parse_www_authenticate_spec(header_of(p)) == parse_www_authenticate_spec(header_of(q)),
{
    assert forall|i: int| 0 <= i < q.len() implies !(#[trigger] q[i]).contains(',') by {
        assert(q.contains(q[i]));
        let j = choose|j: int| 0 <= j < p.len() && p[j] == q[i];
        assert(!p[j].contains(','));
    }
    lemma_header_of_parts(p);
    lemma_header_of_parts(q);
    lemma_order_is_immaterial(p, q);
}

/// The parameters of a challenge have a sorted listing.
pub proof fn lemma_parameters_have_listing(parts: Seq<Seq<char>>)
    requires
        parameters(parts) is Some,
    ensures
        has_sorted_listing(parameters(parts)->0),
    decreases parts.len(),
{
    if parts.len() == 0 {
        lemma_empty_has_listing();
    } else {
        lemma_parameters_have_listing(parts.drop_last());
        if parts.last().len() > 0 {
            lemma_insert_has_listing(
                parameters(parts.drop_last())->0,
                name_in(parts.last()),
                value_in(parts.last()),
            );
        }
    }
}

/// The query string of a token address holds every parameter but the realm
/// exactly once, and holds them in the strictly increasing lexicographic
/// order of their names, whatever the order of the challenge's parts.
pub proof fn lemma_query_in_name_order(parts: Seq<Seq<char>>)
    requires
        parameters(parts) is Some,
        parameters(parts)->0.contains_key(realm_key()),
    ensures
        ({
            let params = parameters(parts)->0;
            let others = params.remove(realm_key());
            &&& is_sorted_listing(sorted_listing(others), others)
            &&& challenge_url(parts) == Ok::<Seq<char>, ContainerErrorView>(
                params[realm_key()] + query_string(sorted_listing(others)),
            )
        }),
{
    lemma_parameters_have_listing(parts);
    lemma_remove_has_listing(parameters(parts)->0, realm_key());
    lemma_sorted_listing_lists(parameters(parts)->0.remove(realm_key()));
}

} // verus!
