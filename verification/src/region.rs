//! Region expressions: which side of which surfaces a cell is on.
//!
//! An expression is a list of groups parted by `|`; a group is a list of words
//! parted by white space. A word `-name` stands for the inside of a surface and
//! `+name` for its outside; a `~` before it for the complement. A word `&` says
//! nothing. A list of such words between `~(` and `)` stands for the complement of
//! all of them together; there are no lists in lists and no bars in them. A group
//! holds where all that stands in it holds, the expression where any of its groups
//! holds.

use crate::geometry::{
    box_fits, half_space_aabb, half_space_box, in_box, is_join, is_meet, is_point, law_join_holds_all_points,
    law_meet_holds_common_points, law_side_lies_in_its_box, law_whole_space_holds_every_point, lemma_meet_single,
    lies_on, whole_space, Aabb, Surface, Vec3,
};
use crate::text::same_text;
use vstd::prelude::*;

verus! {

/// The characters that Unicode counts as white space.
pub open spec fn is_white(c: char) -> bool {
    ||| '\u{9}' <= c <= '\u{d}'
    ||| c == ' '
    ||| c == '\u{85}'
    ||| c == '\u{a0}'
    ||| c == '\u{1680}'
    ||| '\u{2000}' <= c <= '\u{200a}'
    ||| c == '\u{2028}'
    ||| c == '\u{2029}'
    ||| c == '\u{202f}'
    ||| c == '\u{205f}'
    ||| c == '\u{3000}'
}

fn white(c: char) -> (r: bool)
    ensures
        r == is_white(c),
{
    ('\u{9}' <= c && c <= '\u{d}') || c == ' ' || c == '\u{85}' || c == '\u{a0}' || c == '\u{1680}' || (
    '\u{2000}' <= c && c <= '\u{200a}') || c == '\u{2028}' || c == '\u{2029}' || c == '\u{202f}' || c
        == '\u{205f}' || c == '\u{3000}'
}

/// The length of the word that a text begins with.
pub open spec fn word_len(s: Seq<char>) -> int
    decreases s.len(),
{
    if s.len() == 0 || is_white(s[0]) {
        0
    } else {
        1 + word_len(s.skip(1))
    }
}

pub proof fn lemma_word_len(s: Seq<char>)
    ensures
        0 <= word_len(s) <= s.len(),
        forall|i: int| 0 <= i < word_len(s) ==> !is_white(#[trigger] s[i]),
        word_len(s) < s.len() ==> is_white(s[word_len(s)]),
    decreases s.len(),
{
    if s.len() > 0 && !is_white(s[0]) {
        lemma_word_len(s.skip(1));
        assert forall|i: int| 0 <= i < word_len(s) implies !is_white(#[trigger] s[i]) by {
            if i > 0 {
                assert(s[i] == s.skip(1)[i - 1]);
            }
        }
    }
}

/// The words of a text.
pub open spec fn words(s: Seq<char>) -> Seq<Seq<char>>
    decreases s.len(),
{
    if s.len() == 0 {
        Seq::empty()
    } else if is_white(s[0]) {
        words(s.skip(1))
    } else {
        proof {
            lemma_word_len(s);
        }
        seq![s.take(word_len(s))] + words(s.skip(word_len(s)))
    }
}

/// The length of the group that a text begins with.
pub open spec fn group_len(s: Seq<char>) -> int
    decreases s.len(),
{
    if s.len() == 0 || s[0] == '|' {
        0
    } else {
        1 + group_len(s.skip(1))
    }
}

pub proof fn lemma_group_len(s: Seq<char>)
    ensures
        0 <= group_len(s) <= s.len(),
        forall|i: int| 0 <= i < group_len(s) ==> #[trigger] s[i] != '|',
        group_len(s) < s.len() ==> s[group_len(s)] == '|',
    decreases s.len(),
{
    if s.len() > 0 && s[0] != '|' {
        lemma_group_len(s.skip(1));
        assert forall|i: int| 0 <= i < group_len(s) implies #[trigger] s[i] != '|' by {
            if i > 0 {
                assert(s[i] == s.skip(1)[i - 1]);
            }
        }
    }
}

/// The groups of an expression, each by its words. There is one more group than
/// there are bars, and a group may have no word.
pub open spec fn groups(s: Seq<char>) -> Seq<Seq<Seq<char>>>
    decreases s.len(),
{
    proof {
        lemma_group_len(s);
    }
    let n = group_len(s);
    if n < s.len() {
        seq![words(s.take(n))] + groups(s.skip(n + 1))
    } else {
        seq![words(s)]
    }
}

/// One word of a group, resolved.
#[derive(Clone, Copy, Debug, PartialEq, Eq, Structural)]
pub struct Term {
    pub surface: usize,
    pub inside: bool,
    pub complement: bool,
}

/// What is wrong with an expression.
#[derive(Clone, Debug)]
pub enum RegionError {
    /// It has no word at all.
    Empty,
    /// A word is none of the four forms.
    BadToken(String),
    /// A word names a surface that is not there.
    UnknownSurface(String),
    /// A group or a list says nothing.
    EmptyGroup,
    /// A list has no end.
    OpenList,
}

/// What is wrong with an expression, with texts in place of strings.
pub enum RegionFault {
    Empty,
    BadToken(Seq<char>),
    UnknownSurface(Seq<char>),
    EmptyGroup,
    OpenList,
}

/// The fault that an error reports.
pub open spec fn fault_of(e: RegionError) -> RegionFault {
    match e {
        RegionError::Empty => RegionFault::Empty,
        RegionError::BadToken(t) => RegionFault::BadToken(t@),
        RegionError::UnknownSurface(t) => RegionFault::UnknownSurface(t@),
        RegionError::EmptyGroup => RegionFault::EmptyGroup,
        RegionError::OpenList => RegionFault::OpenList,
    }
}

/// `i` is where `name` first stands in the list.
pub open spec fn first_named(names: Seq<String>, name: Seq<char>, i: int) -> bool {
    &&& 0 <= i < names.len()
    &&& names[i]@ == name
    &&& forall|k: int| 0 <= k < i ==> (#[trigger] names[k])@ != name
}

/// `name` stands in the list.
pub open spec fn is_named(names: Seq<String>, name: Seq<char>) -> bool {
    exists|i: int| 0 <= i < names.len() && (#[trigger] names[i])@ == name
}

/// Where `name` first stands in the list.
pub open spec fn index_named(names: Seq<String>, name: Seq<char>) -> int {
    choose|i: int| first_named(names, name, i)
}

/// A name that is in the list has a first place.
pub(crate) proof fn lemma_index_named(names: Seq<String>, name: Seq<char>)
    requires
        is_named(names, name),
    ensures
        first_named(names, name, index_named(names, name)),
{
    let i = choose|i: int| 0 <= i < names.len() && (#[trigger] names[i])@ == name;
    lemma_first_up_to(names, name, i);
}

proof fn lemma_first_up_to(names: Seq<String>, name: Seq<char>, i: int)
    requires
        0 <= i < names.len(),
        names[i]@ == name,
    ensures
        exists|j: int| first_named(names, name, j),
    decreases i,
{
    if exists|k: int| 0 <= k < i && (#[trigger] names[k])@ == name {
        let k = choose|k: int| 0 <= k < i && (#[trigger] names[k])@ == name;
        lemma_first_up_to(names, name, k);
    } else {
        assert(first_named(names, name, i));
    }
}

proof fn lemma_first_named_unique(names: Seq<String>, name: Seq<char>, i: int)
    requires
        first_named(names, name, i),
    ensures
        is_named(names, name),
        index_named(names, name) == i,
{
    let j = index_named(names, name);
    assert(first_named(names, name, j));
    assert(names[i]@ == name);
    assert(names[j]@ == name);
}

/// Finds a name in a list.
pub fn find_name(names: &Vec<String>, name: &str) -> (r: Option<usize>)
    ensures
        r is Some <==> is_named(names@, name@),
        r matches Some(i) ==> first_named(names@, name@, i as int) && i == index_named(names@, name@),
{
    let mut i: usize = 0;
    while i < names.len()
        invariant
            i <= names@.len(),
            forall|k: int| 0 <= k < i ==> (#[trigger] names@[k])@ != name@,
        decreases names@.len() - i,
    {
        if same_text(names[i].as_str(), name) {
            proof {
                lemma_first_named_unique(names@, name@, i as int);
            }
            return Some(i);
        }
        i += 1;
    }
    None
}

/// A word without its complement sign.
pub open spec fn bare(word: Seq<char>) -> Seq<char> {
    if word.len() > 0 && word[0] == '~' {
        word.skip(1)
    } else {
        word
    }
}

/// The word is of one of the four forms.
pub open spec fn is_half_space(word: Seq<char>) -> bool {
    bare(word).len() > 0 && (bare(word)[0] == '-' || bare(word)[0] == '+')
}

/// The name in a word of one of the four forms.
pub open spec fn named(word: Seq<char>) -> Seq<char> {
    bare(word).skip(1)
}

/// What a word means: nothing for `&`, else a side of a surface.
pub open spec fn term_of(word: Seq<char>, names: Seq<String>) -> Result<Option<Term>, RegionFault> {
    if word == "&"@ {
        Ok(None)
    } else if !is_half_space(word) {
        Err(RegionFault::BadToken(word))
    } else if !is_named(names, named(word)) {
        Err(RegionFault::UnknownSurface(named(word)))
    } else {
        Ok(
            Some(
                Term {
                    surface: index_named(names, named(word)) as usize,
                    inside: bare(word)[0] == '-',
                    complement: word[0] == '~',
                },
            ),
        )
    }
}

/// What stands in a group: a word, or the complement of a list of words.
pub enum Factor {
    One(Term),
    NotAll(Seq<Term>),
}

/// What was read of a group: what stands in it, and the words of the list that is
/// open, where one is.
pub struct Scan {
    pub factors: Seq<Factor>,
    pub open: Option<Seq<Term>>,
}

/// The word opens a list.
pub open spec fn opens(word: Seq<char>) -> bool {
    word.len() >= 2 && word[0] == '~' && word[1] == '('
}

/// The text closes a list.
pub open spec fn closes(text: Seq<char>) -> bool {
    text.len() > 0 && text.last() == ')'
}

/// What a text in a list says, without the sign that closes it.
pub open spec fn listed(text: Seq<char>) -> Seq<char> {
    if closes(text) {
        text.drop_last()
    } else {
        text
    }
}

/// What a text in a list means: nothing where it only opens or closes the list.
pub open spec fn listed_term(text: Seq<char>, names: Seq<String>) -> Result<Option<Term>, RegionFault> {
    if listed(text).len() == 0 {
        Ok(None)
    } else {
        term_of(listed(text), names)
    }
}

/// Reads a text in a list.
pub open spec fn read_listed(
    factors: Seq<Factor>,
    list: Seq<Term>,
    text: Seq<char>,
    names: Seq<String>,
) -> Result<Scan, RegionFault> {
    match listed_term(text, names) {
        Err(e) => Err(e),
        Ok(t) => {
            let more = match t {
                Some(x) => list.push(x),
                None => list,
            };
            if !closes(text) {
                Ok(Scan { factors, open: Some(more) })
            } else if more.len() == 0 {
                Err(RegionFault::EmptyGroup)
            } else {
                Ok(Scan { factors: factors.push(Factor::NotAll(more)), open: None })
            }
        },
    }
}

/// Reads one word of a group.
pub open spec fn read_word(s: Scan, word: Seq<char>, names: Seq<String>) -> Result<Scan, RegionFault> {
    match s.open {
        Some(list) => read_listed(s.factors, list, word, names),
        None => if opens(word) {
            read_listed(s.factors, Seq::empty(), word.skip(2), names)
        } else {
            match term_of(word, names) {
                Err(e) => Err(e),
                Ok(None) => Ok(s),
                Ok(Some(t)) => Ok(Scan { factors: s.factors.push(Factor::One(t)), open: None }),
            }
        },
    }
}

/// What the first `n` words of a group mean, or the first fault among them.
pub open spec fn scan(group: Seq<Seq<char>>, names: Seq<String>, n: int) -> Result<Scan, RegionFault>
    decreases n,
{
    if n <= 0 {
        Ok(Scan { factors: Seq::empty(), open: None })
    } else {
        match scan(group, names, n - 1) {
            Err(e) => Err(e),
            Ok(s) => read_word(s, group[n - 1], names),
        }
    }
}

/// What a group means. A group of `&` alone is a fault.
pub open spec fn group_factors(group: Seq<Seq<char>>, names: Seq<String>) -> Result<Seq<Factor>, RegionFault> {
    match scan(group, names, group.len() as int) {
        Err(e) => Err(e),
        Ok(s) => if s.open is Some {
            Err(RegionFault::OpenList)
        } else if s.factors.len() == 0 {
            Err(RegionFault::EmptyGroup)
        } else {
            Ok(s.factors)
        },
    }
}

/// What the first `n` groups mean, those without a word left out, or the first
/// fault among them.
pub open spec fn meaning(all: Seq<Seq<Seq<char>>>, names: Seq<String>, n: int) -> Result<
    Seq<Seq<Factor>>,
    RegionFault,
>
    decreases n,
{
    if n <= 0 {
        Ok(Seq::empty())
    } else {
        match meaning(all, names, n - 1) {
            Err(e) => Err(e),
            Ok(done) => if all[n - 1].len() == 0 {
                Ok(done)
            } else {
                match group_factors(all[n - 1], names) {
                    Err(e) => Err(e),
                    Ok(factors) => Ok(done.push(factors)),
                }
            },
        }
    }
}

/// What an expression means over the named surfaces.
pub open spec fn expression_meaning(s: Seq<char>, names: Seq<String>) -> Result<Seq<Seq<Factor>>, RegionFault> {
    match meaning(groups(s), names, groups(s).len() as int) {
        Err(e) => Err(e),
        Ok(all) => if all.len() == 0 {
            Err(RegionFault::Empty)
        } else {
            Ok(all)
        },
    }
}

/// A set of points by sides of surfaces.
#[derive(Debug)]
pub enum Region {
    Inside(usize),
    Outside(usize),
    Complement(Box<Region>),
    Intersection(Box<Region>, Box<Region>),
    Union(Box<Region>, Box<Region>),
}

/// A point lies in the region, given on which sides of the surfaces it lies.
pub open spec fn holds(r: Region, on_side: spec_fn(int, bool) -> bool) -> bool
    decreases r,
{
    match r {
        Region::Inside(i) => on_side(i as int, false),
        Region::Outside(i) => on_side(i as int, true),
        Region::Complement(a) => !holds(*a, on_side),
        Region::Intersection(a, b) => holds(*a, on_side) && holds(*b, on_side),
        Region::Union(a, b) => holds(*a, on_side) || holds(*b, on_side),
    }
}

/// The region of one word.
pub open spec fn term_region(t: Term) -> Region {
    let half = if t.inside {
        Region::Inside(t.surface)
    } else {
        Region::Outside(t.surface)
    };
    if t.complement {
        Region::Complement(Box::new(half))
    } else {
        half
    }
}

/// The region of the first `n` words of a list.
pub open spec fn list_region(terms: Seq<Term>, n: int) -> Region
    decreases n,
{
    if n <= 1 {
        term_region(terms[0])
    } else {
        Region::Intersection(Box::new(list_region(terms, n - 1)), Box::new(term_region(terms[n - 1])))
    }
}

/// The region of what stands in a group.
pub open spec fn factor_region(f: Factor) -> Region {
    match f {
        Factor::One(t) => term_region(t),
        Factor::NotAll(list) => Region::Complement(Box::new(list_region(list, list.len() as int))),
    }
}

/// The region of the first `n` things that stand in a group.
pub open spec fn group_region(factors: Seq<Factor>, n: int) -> Region
    decreases n,
{
    if n <= 1 {
        factor_region(factors[0])
    } else {
        Region::Intersection(Box::new(group_region(factors, n - 1)), Box::new(factor_region(factors[n - 1])))
    }
}

/// The region of the first `n` groups.
pub open spec fn region_of(all: Seq<Seq<Factor>>, n: int) -> Region
    decreases n,
{
    if n <= 1 {
        group_region(all[0], all[0].len() as int)
    } else {
        Region::Union(
            Box::new(region_of(all, n - 1)),
            Box::new(group_region(all[n - 1], all[n - 1].len() as int)),
        )
    }
}

/// A point satisfies one word.
pub open spec fn term_holds(t: Term, on_side: spec_fn(int, bool) -> bool) -> bool {
    on_side(t.surface as int, !t.inside) != t.complement
}

/// A point satisfies every word of a list.
pub open spec fn terms_hold(terms: Seq<Term>, on_side: spec_fn(int, bool) -> bool) -> bool {
    forall|i: int| 0 <= i < terms.len() ==> term_holds(#[trigger] terms[i], on_side)
}

/// A point satisfies what stands in a group: a list under a complement is satisfied
/// where not all of its words are.
pub open spec fn factor_holds(f: Factor, on_side: spec_fn(int, bool) -> bool) -> bool {
    match f {
        Factor::One(t) => term_holds(t, on_side),
        Factor::NotAll(list) => !terms_hold(list, on_side),
    }
}

/// A point satisfies everything that stands in a group.
pub open spec fn all_hold(factors: Seq<Factor>, on_side: spec_fn(int, bool) -> bool) -> bool {
    forall|i: int| 0 <= i < factors.len() ==> factor_holds(#[trigger] factors[i], on_side)
}

/// A list under a complement holds some word.
pub open spec fn is_filled(f: Factor) -> bool {
    f matches Factor::NotAll(list) ==> list.len() > 0
}

/// A group holds something, and so does every list in it.
pub open spec fn group_filled(factors: Seq<Factor>) -> bool {
    factors.len() > 0 && forall|i: int| 0 <= i < factors.len() ==> is_filled(#[trigger] factors[i])
}

proof fn lemma_list_region(terms: Seq<Term>, n: int, on_side: spec_fn(int, bool) -> bool)
    requires
        1 <= n <= terms.len(),
    ensures
        holds(list_region(terms, n), on_side) <==> forall|i: int|
            0 <= i < n ==> term_holds(#[trigger] terms[i], on_side),
    decreases n,
{
    reveal_with_fuel(holds, 3);
    assert(holds(term_region(terms[n - 1]), on_side) == term_holds(terms[n - 1], on_side));
    if n > 1 {
        lemma_list_region(terms, n - 1, on_side);
    } else {
        assert(term_holds(terms[0], on_side) == holds(list_region(terms, 1), on_side));
    }
}

proof fn lemma_factor_region(f: Factor, on_side: spec_fn(int, bool) -> bool)
    requires
        is_filled(f),
    ensures
        holds(factor_region(f), on_side) == factor_holds(f, on_side),
{
    reveal_with_fuel(holds, 3);
    if let Factor::NotAll(list) = f {
        lemma_list_region(list, list.len() as int, on_side);
        assert(terms_hold(list, on_side) == holds(list_region(list, list.len() as int), on_side));
    }
}

proof fn lemma_group_region(factors: Seq<Factor>, n: int, on_side: spec_fn(int, bool) -> bool)
    requires
        1 <= n <= factors.len(),
        group_filled(factors),
    ensures
        holds(group_region(factors, n), on_side) <==> forall|i: int|
            0 <= i < n ==> factor_holds(#[trigger] factors[i], on_side),
    decreases n,
{
    reveal_with_fuel(holds, 2);
    assert(is_filled(factors[n - 1]));
    lemma_factor_region(factors[n - 1], on_side);
    if n > 1 {
        lemma_group_region(factors, n - 1, on_side);
    } else {
        assert(factor_holds(factors[0], on_side) == holds(group_region(factors, 1), on_side));
    }
}

/// The region of an expression holds exactly where everything that stands in some
/// group holds.
pub proof fn law_region_is_union_of_groups(
    all: Seq<Seq<Factor>>,
    n: int,
    on_side: spec_fn(int, bool) -> bool,
)
    requires
        1 <= n <= all.len(),
        forall|g: int| 0 <= g < all.len() ==> group_filled(#[trigger] all[g]),
    ensures
        holds(region_of(all, n), on_side) <==> exists|g: int| 0 <= g < n && all_hold(#[trigger] all[g], on_side),
    decreases n,
{
    assert(group_filled(all[n - 1]));
    lemma_group_region(all[n - 1], all[n - 1].len() as int, on_side);
    if n > 1 {
        law_region_is_union_of_groups(all, n - 1, on_side);
    } else {
        assert(all_hold(all[0], on_side) == holds(region_of(all, 1), on_side));
    }
}

/// What was read of a group holds only lists with some word.
proof fn lemma_scan_fills_lists(group: Seq<Seq<char>>, names: Seq<String>, n: int)
    requires
        0 <= n <= group.len(),
        scan(group, names, n) is Ok,
    ensures
        forall|i: int|
            0 <= i < scan(group, names, n)->Ok_0.factors.len() ==> is_filled(
                #[trigger] scan(group, names, n)->Ok_0.factors[i],
            ),
    decreases n,
{
    if n > 0 {
        lemma_scan_fills_lists(group, names, n - 1);
        let before = scan(group, names, n - 1)->Ok_0.factors;
        let after = scan(group, names, n)->Ok_0.factors;
        assert forall|i: int| 0 <= i < after.len() implies is_filled(#[trigger] after[i]) by {
            if i < before.len() {
                assert(after[i] == before[i]);
                assert(is_filled(before[i]));
            }
        }
    }
}

/// The span of a word or group in an expression.
#[derive(Clone, Copy, Debug, PartialEq, Eq, Structural)]
struct Span {
    start: usize,
    end: usize,
}

/// The texts of spans.
spec fn span_texts(s: Seq<char>, spans: Seq<Span>) -> Seq<Seq<char>> {
    spans.map_values(|p: Span| s.subrange(p.start as int, p.end as int))
}

/// The spans lie within a text.
spec fn spans_within(s: Seq<char>, spans: Seq<Span>) -> bool {
    forall|i: int| 0 <= i < spans.len() ==> (#[trigger] spans[i]).start <= spans[i].end <= s.len()
}

/// Finds the words between two positions.
fn find_words(chars: &Vec<char>, from: usize, to: usize) -> (r: Vec<Span>)
    requires
        from <= to <= chars@.len(),
    ensures
        spans_within(chars@, r@),
        span_texts(chars@, r@) == words(chars@.subrange(from as int, to as int)),
{
    let ghost all = words(chars@.subrange(from as int, to as int));
    let mut out: Vec<Span> = Vec::new();
    let mut i: usize = from;
    assert(span_texts(chars@, out@) + words(chars@.subrange(i as int, to as int)) =~= all);
    while i < to
        invariant
            from <= i <= to <= chars@.len(),
            spans_within(chars@, out@),
            all == words(chars@.subrange(from as int, to as int)),
            span_texts(chars@, out@) + words(chars@.subrange(i as int, to as int)) == all,
        decreases to - i,
    {
        let ghost rest = chars@.subrange(i as int, to as int);
        if white(chars[i]) {
            proof {
                assert(rest[0] == chars@[i as int]);
                assert(rest.skip(1) =~= chars@.subrange(i + 1, to as int));
            }
            i += 1;
        } else {
            let start: usize = i;
            assert(rest[0] == chars@[i as int]);
            assert(rest.skip(0) =~= rest);
            while i < to && !white(chars[i])
                invariant
                    start <= i <= to <= chars@.len(),
                    rest == chars@.subrange(start as int, to as int),
                    word_len(rest) == (i - start) + word_len(rest.skip(i - start)),
                decreases to - i,
            {
                proof {
                    assert(rest.skip(i - start)[0] == chars@[i as int]);
                    assert(rest.skip(i - start).skip(1) =~= rest.skip(i + 1 - start));
                }
                i += 1;
            }
            proof {
                let tail = rest.skip(i - start);
                if i < to {
                    assert(tail[0] == chars@[i as int]);
                }
                assert(word_len(tail) == 0);
                assert(word_len(rest) == i - start);
                assert(rest.take(i - start) =~= chars@.subrange(start as int, i as int));
                assert(rest.skip(i - start) =~= chars@.subrange(i as int, to as int));
            }
            let ghost before = span_texts(chars@, out@);
            out.push(Span { start, end: i });
            proof {
                lemma_word_len(rest);
                assert(span_texts(chars@, out@) =~= before.push(chars@.subrange(start as int, i as int)));
                assert(words(rest) == seq![rest.take(word_len(rest))] + words(rest.skip(word_len(rest)))) by {
                    assert(word_len(rest) > 0);
                }
                assert(span_texts(chars@, out@) + words(chars@.subrange(i as int, to as int)) =~= before + words(
                    rest,
                ));
            }
        }
    }
    proof {
        assert(chars@.subrange(i as int, to as int) =~= Seq::empty());
        assert(span_texts(chars@, out@) =~= all);
    }
    out
}

/// The words of spans of groups.
spec fn group_texts(s: Seq<char>, spans: Seq<Span>) -> Seq<Seq<Seq<char>>> {
    spans.map_values(|p: Span| words(s.subrange(p.start as int, p.end as int)))
}

/// Finds the groups of an expression.
fn find_groups(chars: &Vec<char>) -> (r: Vec<Span>)
    ensures
        spans_within(chars@, r@),
        group_texts(chars@, r@) == groups(chars@),
{
    let n: usize = chars.len();
    let mut out: Vec<Span> = Vec::new();
    let mut start: usize = 0;
    let mut i: usize = 0;
    proof {
        assert(chars@.skip(0) =~= chars@);
        assert(chars@.skip(0).skip(0) =~= chars@);
        assert(group_texts(chars@, out@) + groups(chars@.skip(0)) =~= groups(chars@));
    }
    while i < n
        invariant
            n == chars@.len(),
            start <= i <= n,
            spans_within(chars@, out@),
            group_texts(chars@, out@) + groups(chars@.skip(start as int)) == groups(chars@),
            group_len(chars@.skip(start as int)) == (i - start) + group_len(chars@.skip(start as int).skip(i - start)),
        decreases n - i,
    {
        let ghost rest = chars@.skip(start as int);
        let ghost tail = rest.skip(i - start);
        assert(tail[0] == chars@[i as int]);
        if chars[i] == '|' {
            let ghost before = group_texts(chars@, out@);
            out.push(Span { start, end: i });
            proof {
                assert(group_len(rest) == i - start);
                lemma_group_len(rest);
                assert(rest.take(i - start) =~= chars@.subrange(start as int, i as int));
                assert(rest.skip(i - start + 1) =~= chars@.skip(i + 1));
                assert(group_texts(chars@, out@) =~= before.push(words(chars@.subrange(start as int, i as int))));
                assert(groups(rest) == seq![words(rest.take(i - start))] + groups(rest.skip(i - start + 1)));
                assert(group_texts(chars@, out@) + groups(chars@.skip(i + 1)) =~= before + groups(rest));
                assert(chars@.skip(i + 1).skip(0) =~= chars@.skip(i + 1));
            }
            start = i + 1;
        } else {
            proof {
                assert(tail.skip(1) =~= rest.skip(i + 1 - start));
            }
        }
        i += 1;
    }
    let ghost before = group_texts(chars@, out@);
    out.push(Span { start, end: n });
    proof {
        let rest = chars@.skip(start as int);
        assert(rest.skip(n - start).len() == 0);
        assert(group_len(rest) == n - start);
        assert(rest =~= chars@.subrange(start as int, n as int));
        assert(group_texts(chars@, out@) =~= before.push(words(rest)));
        assert(group_texts(chars@, out@) =~= before + groups(rest));
    }
    out
}

/// Resolves one word.
fn read_term(word: &str, names: &Vec<String>) -> (r: Result<Option<Term>, RegionError>)
    ensures
        r matches Ok(t) ==> term_of(word@, names@) == Ok::<Option<Term>, RegionFault>(t),
        r matches Err(e) ==> term_of(word@, names@) == Err::<Option<Term>, RegionFault>(fault_of(e)),
{
    if same_text(word, "&") {
        return Ok(None);
    }
    let n: usize = word.unicode_len();
    let complement: bool = n > 0 && word.get_char(0) == '~';
    let at: usize = if complement {
        1
    } else {
        0
    };
    proof {
        if complement {
            assert(bare(word@) == word@.skip(1));
            if n > 1 {
                assert(bare(word@)[0] == word@[1]);
            }
        }
        assert(bare(word@).len() == n - at);
    }
    if at >= n {
        return Err(RegionError::BadToken(word.to_owned()));
    }
    let sign: char = word.get_char(at);
    assert(bare(word@)[0] == sign);
    if sign != '-' && sign != '+' {
        return Err(RegionError::BadToken(word.to_owned()));
    }
    let name = word.substring_char(at + 1, n);
    proof {
        assert(name@ =~= named(word@));
    }
    match find_name(names, name) {
        None => Err(RegionError::UnknownSurface(name.to_owned())),
        Some(i) => Ok(Some(Term { surface: i, inside: sign == '-', complement })),
    }
}

fn term_to_region(t: Term) -> (r: Region)
    ensures
        r == term_region(t),
{
    let half = if t.inside {
        Region::Inside(t.surface)
    } else {
        Region::Outside(t.surface)
    };
    if t.complement {
        Region::Complement(Box::new(half))
    } else {
        half
    }
}

/// Puts a half space behind those of a list.
fn add_to_list(list: Option<Region>, t: Term, Ghost(terms): Ghost<Seq<Term>>) -> (r: Option<Region>)
    requires
        list is Some <==> terms.len() > 0,
        list matches Some(x) ==> x == list_region(terms, terms.len() as int),
    ensures
        r is Some,
        r->0 == list_region(terms.push(t), terms.len() as int + 1),
{
    proof {
        lemma_list_region_prefix(terms, t, terms.len() as int);
    }
    let half = term_to_region(t);
    match list {
        None => Some(half),
        Some(x) => Some(Region::Intersection(Box::new(x), Box::new(half))),
    }
}

/// Puts a region behind those of a group.
fn add_to_group(region: Option<Region>, next: Region, Ghost(factors): Ghost<Seq<Factor>>, Ghost(f): Ghost<Factor>) -> (r:
    Option<Region>)
    requires
        region is Some <==> factors.len() > 0,
        region matches Some(x) ==> x == group_region(factors, factors.len() as int),
        next == factor_region(f),
    ensures
        r is Some,
        r->0 == group_region(factors.push(f), factors.len() as int + 1),
{
    proof {
        lemma_group_region_prefix(factors, f, factors.len() as int);
    }
    match region {
        None => Some(next),
        Some(x) => Some(Region::Intersection(Box::new(x), Box::new(next))),
    }
}

/// Whether a word opens a list.
fn opens_list(word: &str) -> (r: bool)
    ensures
        r == opens(word@),
{
    word.unicode_len() >= 2 && word.get_char(0) == '~' && word.get_char(1) == '('
}

/// Whether a text closes a list.
fn closes_list(text: &str) -> (r: bool)
    ensures
        r == closes(text@),
{
    let n: usize = text.unicode_len();
    n > 0 && text.get_char(n - 1) == ')'
}

/// Resolves a text in a list.
fn read_listed_term(text: &str, names: &Vec<String>) -> (r: Result<Option<Term>, RegionError>)
    ensures
        r matches Ok(t) ==> listed_term(text@, names@) == Ok::<Option<Term>, RegionFault>(t),
        r matches Err(e) ==> listed_term(text@, names@) == Err::<Option<Term>, RegionFault>(fault_of(e)),
{
    let n: usize = text.unicode_len();
    let end: usize = if closes_list(text) {
        n - 1
    } else {
        n
    };
    if end == 0 {
        return Ok(None);
    }
    let word = text.substring_char(0, end);
    assert(word@ =~= listed(text@));
    read_term(word, names)
}

/// What was read of a group: the region of what stands in it, and that of the open
/// list, where one is.
struct Reading {
    region: Option<Region>,
    open: bool,
    list: Option<Region>,
}

/// The reading is that of a scan.
spec fn reads(r: Reading, s: Scan) -> bool {
    &&& r.region is Some <==> s.factors.len() > 0
    &&& r.region matches Some(x) ==> x == group_region(s.factors, s.factors.len() as int)
    &&& r.open == (s.open is Some)
    &&& r.list is Some <==> s.open is Some && s.open->0.len() > 0
    &&& r.list matches Some(x) ==> x == list_region(s.open->0, s.open->0.len() as int)
}

/// Reads a text in a list.
fn take_listed(
    region: Option<Region>,
    list: Option<Region>,
    text: &str,
    names: &Vec<String>,
    Ghost(s): Ghost<Scan>,
) -> (r: Result<Reading, RegionError>)
    requires
        s.open is Some,
        reads((Reading { region, open: true, list }), s),
    ensures
        ({
            let next = read_listed(s.factors, s.open->0, text@, names@);
            match r {
                Ok(x) => next is Ok && reads(x, next->Ok_0),
                Err(e) => next == Err::<Scan, RegionFault>(fault_of(e)),
            }
        }),
{
    let ghost terms = s.open->0;
    let ghost mut more = terms;
    let mut list = list;
    match read_listed_term(text, names) {
        Err(e) => {
            return Err(e);
        },
        Ok(None) => {},
        Ok(Some(t)) => {
            list = add_to_list(list, t, Ghost(terms));
            proof {
                more = terms.push(t);
            }
        },
    }
    if !closes_list(text) {
        return Ok(Reading { region, open: true, list });
    }
    match list {
        None => Err(RegionError::EmptyGroup),
        Some(x) => {
            let region = add_to_group(
                region,
                Region::Complement(Box::new(x)),
                Ghost(s.factors),
                Ghost(Factor::NotAll(more)),
            );
            Ok(Reading { region, open: false, list: None })
        },
    }
}

/// Reads one word of a group.
fn take_word(reading: Reading, word: &str, names: &Vec<String>, Ghost(s): Ghost<Scan>) -> (r: Result<
    Reading,
    RegionError,
>)
    requires
        reads(reading, s),
    ensures
        ({
            let next = read_word(s, word@, names@);
            match r {
                Ok(x) => next is Ok && reads(x, next->Ok_0),
                Err(e) => next == Err::<Scan, RegionFault>(fault_of(e)),
            }
        }),
{
    if reading.open {
        return take_listed(reading.region, reading.list, word, names, Ghost(s));
    }
    if opens_list(word) {
        let n: usize = word.unicode_len();
        let text = word.substring_char(2, n);
        assert(text@ =~= word@.skip(2));
        let ghost begun = Scan { factors: s.factors, open: Some(Seq::empty()) };
        return take_listed(reading.region, None, text, names, Ghost(begun));
    }
    match read_term(word, names) {
        Err(e) => Err(e),
        Ok(None) => Ok(reading),
        Ok(Some(t)) => {
            let region = add_to_group(
                reading.region,
                term_to_region(t),
                Ghost(s.factors),
                Ghost(Factor::One(t)),
            );
            Ok(Reading { region, open: false, list: None })
        },
    }
}

/// Resolves the words of a group and intersects their regions.
fn read_group(expr: &str, spans: &Vec<Span>, names: &Vec<String>) -> (r: Result<Region, RegionError>)
    requires
        spans_within(expr@, spans@),
    ensures
        r matches Ok(region) ==> {
            &&& group_factors(span_texts(expr@, spans@), names@) is Ok
            &&& region == group_region(
                group_factors(span_texts(expr@, spans@), names@)->Ok_0,
                group_factors(span_texts(expr@, spans@), names@)->Ok_0.len() as int,
            )
        },
        r matches Err(e) ==> group_factors(span_texts(expr@, spans@), names@) == Err::<Seq<Factor>, RegionFault>(
            fault_of(e),
        ),
{
    let ghost group = span_texts(expr@, spans@);
    let ghost mut s = Scan { factors: Seq::empty(), open: None };
    let mut reading = Reading { region: None, open: false, list: None };
    let mut i: usize = 0;
    while i < spans.len()
        invariant
            group == span_texts(expr@, spans@),
            spans_within(expr@, spans@),
            i <= spans@.len(),
            scan(group, names@, i as int) == Ok::<Scan, RegionFault>(s),
            reads(reading, s),
        decreases spans@.len() - i,
    {
        let span: Span = spans[i];
        let word = expr.substring_char(span.start, span.end);
        assert(word@ == group[i as int]);
        match take_word(reading, word, names, Ghost(s)) {
            Err(e) => {
                proof {
                    lemma_scan_fault(group, names@, i as int + 1);
                }
                return Err(e);
            },
            Ok(next) => {
                proof {
                    s = read_word(s, word@, names@)->Ok_0;
                }
                reading = next;
            },
        }
        i += 1;
    }
    if reading.open {
        return Err(RegionError::OpenList);
    }
    match reading.region {
        None => Err(RegionError::EmptyGroup),
        Some(x) => Ok(x),
    }
}

/// A fault among the first words is a fault of the group.
proof fn lemma_scan_fault(group: Seq<Seq<char>>, names: Seq<String>, n: int)
    requires
        0 <= n <= group.len(),
        scan(group, names, n) is Err,
    ensures
        scan(group, names, group.len() as int) == scan(group, names, n),
    decreases group.len() - n,
{
    if n < group.len() {
        lemma_scan_fault(group, names, n + 1);
    }
}

/// Another word does not change the region of those before it.
proof fn lemma_list_region_prefix(terms: Seq<Term>, t: Term, n: int)
    requires
        n <= terms.len(),
    ensures
        1 <= n ==> list_region(terms.push(t), n) == list_region(terms, n),
    decreases n,
{
    if n > 1 {
        lemma_list_region_prefix(terms, t, n - 1);
    }
}

proof fn lemma_group_region_prefix(factors: Seq<Factor>, f: Factor, n: int)
    requires
        n <= factors.len(),
    ensures
        1 <= n ==> group_region(factors.push(f), n) == group_region(factors, n),
    decreases n,
{
    if n > 1 {
        lemma_group_region_prefix(factors, f, n - 1);
    }
}

proof fn lemma_meaning_fault(all: Seq<Seq<Seq<char>>>, names: Seq<String>, n: int)
    requires
        0 <= n <= all.len(),
        meaning(all, names, n) is Err,
    ensures
        meaning(all, names, all.len() as int) == meaning(all, names, n),
    decreases all.len() - n,
{
    if n < all.len() {
        lemma_meaning_fault(all, names, n + 1);
    }
}

proof fn lemma_region_of_prefix(all: Seq<Seq<Factor>>, g: Seq<Factor>, n: int)
    requires
        n <= all.len(),
    ensures
        1 <= n ==> region_of(all.push(g), n) == region_of(all, n),
    decreases n,
{
    if n > 1 {
        lemma_region_of_prefix(all, g, n - 1);
    }
}

/// Builds the region of an expression over named surfaces.
pub fn build_region(expr: &str, names: &Vec<String>) -> (r: Result<Region, RegionError>)
    ensures
        r is Ok <==> expression_meaning(expr@, names@) is Ok,
        r matches Ok(region) ==> region == region_of(
            expression_meaning(expr@, names@)->Ok_0,
            expression_meaning(expr@, names@)->Ok_0.len() as int,
        ),
        r matches Err(e) ==> expression_meaning(expr@, names@) == Err::<Seq<Seq<Factor>>, RegionFault>(
            fault_of(e),
        ),
{
    let chars = crate::text::chars_of(expr);
    let spans = find_groups(&chars);
    let ghost all = groups(expr@);
    let ghost mut done: Seq<Seq<Factor>> = Seq::empty();
    let mut region: Option<Region> = None;
    let mut i: usize = 0;
    while i < spans.len()
        invariant
            chars@ == expr@,
            all == groups(expr@),
            all == group_texts(expr@, spans@),
            spans_within(expr@, spans@),
            i <= spans@.len(),
            meaning(all, names@, i as int) == Ok::<Seq<Seq<Factor>>, RegionFault>(done),
            region is Some <==> done.len() > 0,
            region matches Some(x) ==> x == region_of(done, done.len() as int),
        decreases spans@.len() - i,
    {
        let span: Span = spans[i];
        let group = find_words(&chars, span.start, span.end);
        assert(span_texts(expr@, group@) == all[i as int]);
        assert(all[i as int].len() == group@.len());
        if group.len() > 0 {
            match read_group(expr, &group, names) {
                Err(e) => {
                    proof {
                        lemma_meaning_fault(all, names@, i as int + 1);
                    }
                    return Err(e);
                },
                Ok(next) => {
                    proof {
                        let factors = group_factors(all[i as int], names@)->Ok_0;
                        lemma_region_of_prefix(done, factors, done.len() as int);
                        done = done.push(factors);
                    }
                    region = match region {
                        None => Some(next),
                        Some(x) => Some(Region::Union(Box::new(x), Box::new(next))),
                    };
                },
            }
        }
        i += 1;
    }
    match region {
        None => Err(RegionError::Empty),
        Some(x) => Ok(x),
    }
}

/// A list is open before word `n` of a group.
pub open spec fn list_open(group: Seq<Seq<char>>, n: int) -> bool
    decreases n,
{
    if n <= 0 {
        false
    } else if list_open(group, n - 1) {
        !closes(group[n - 1])
    } else {
        opens(group[n - 1]) && !closes(group[n - 1].skip(2))
    }
}

/// The side of a known surface that a word outside a list bounds, where it has no
/// complement sign.
pub open spec fn bounding_side(word: Seq<char>, names: Seq<String>) -> Option<(int, bool)> {
    if word.len() > 0 && (word[0] == '-' || word[0] == '+') && is_named(names, word.skip(1)) {
        Some((index_named(names, word.skip(1)), word[0] == '+'))
    } else {
        None
    }
}

/// The boxes of those of the first `n` words of a group that bound it.
pub open spec fn side_boxes(
    group: Seq<Seq<char>>,
    names: Seq<String>,
    surfaces: Seq<Surface>,
    n: int,
) -> Seq<Aabb>
    decreases n,
{
    if n <= 0 {
        Seq::empty()
    } else {
        let before = side_boxes(group, names, surfaces, n - 1);
        match bounding_side(group[n - 1], names) {
            Some((i, positive)) => if list_open(group, n - 1) {
                before
            } else {
                before.push(half_space_box(surfaces[i], positive))
            },
            None => before,
        }
    }
}

/// `b` is the box of a group: what the boxes of its words have in common, or the
/// whole space where no word bounds it.
pub open spec fn is_group_box(b: Aabb, group: Seq<Seq<char>>, names: Seq<String>, surfaces: Seq<Surface>) -> bool {
    let sides = side_boxes(group, names, surfaces, group.len() as int);
    if sides.len() == 0 {
        b == whole_space()
    } else {
        is_meet(b, sides)
    }
}

/// `boxes` holds the box of each of the first `n` groups that has a word.
pub open spec fn are_group_boxes(
    boxes: Seq<Aabb>,
    all: Seq<Seq<Seq<char>>>,
    names: Seq<String>,
    surfaces: Seq<Surface>,
    n: int,
) -> bool
    decreases n,
{
    if n <= 0 {
        boxes.len() == 0
    } else if all[n - 1].len() == 0 {
        are_group_boxes(boxes, all, names, surfaces, n - 1)
    } else {
        &&& boxes.len() > 0
        &&& is_group_box(boxes.last(), all[n - 1], names, surfaces)
        &&& are_group_boxes(boxes.drop_last(), all, names, surfaces, n - 1)
    }
}

/// `r` is the box of an expression: the smallest around the boxes of its groups,
/// or the whole space where there is no group with a word.
pub open spec fn is_expression_box(r: Aabb, s: Seq<char>, names: Seq<String>, surfaces: Seq<Surface>) -> bool {
    exists|boxes: Seq<Aabb>| #[trigger]
        are_group_boxes(boxes, groups(s), names, surfaces, groups(s).len() as int) && if boxes.len() == 0 {
            r == whole_space()
        } else {
            is_join(r, boxes)
        }
}

fn side_of(word: &str, names: &Vec<String>) -> (r: Option<(usize, bool)>)
    ensures
        r is Some <==> bounding_side(word@, names@) is Some,
        r matches Some(x) ==> {
            &&& bounding_side(word@, names@) == Some((x.0 as int, x.1))
            &&& x.0 < names@.len()
        },
{
    let n: usize = word.unicode_len();
    if n == 0 {
        return None;
    }
    let sign: char = word.get_char(0);
    if sign != '-' && sign != '+' {
        return None;
    }
    let name = word.substring_char(1, n);
    assert(name@ =~= word@.skip(1));
    match find_name(names, name) {
        None => None,
        Some(i) => Some((i, sign == '+')),
    }
}

fn group_box(expr: &str, spans: &Vec<Span>, names: &Vec<String>, surfaces: &Vec<Surface>) -> (r: Aabb)
    requires
        spans_within(expr@, spans@),
        names@.len() == surfaces@.len(),
    ensures
        is_group_box(r, span_texts(expr@, spans@), names@, surfaces@),
{
    let ghost group = span_texts(expr@, spans@);
    let mut acc: Option<Aabb> = None;
    let mut open: bool = false;
    let mut i: usize = 0;
    while i < spans.len()
        invariant
            group == span_texts(expr@, spans@),
            spans_within(expr@, spans@),
            names@.len() == surfaces@.len(),
            i <= spans@.len(),
            open == list_open(group, i as int),
            match acc {
                None => side_boxes(group, names@, surfaces@, i as int).len() == 0,
                Some(b) => side_boxes(group, names@, surfaces@, i as int).len() > 0 && is_meet(
                    b,
                    side_boxes(group, names@, surfaces@, i as int),
                ),
            },
        decreases spans@.len() - i,
    {
        let span: Span = spans[i];
        let word = expr.substring_char(span.start, span.end);
        assert(word@ == group[i as int]);
        let ghost before = side_boxes(group, names@, surfaces@, i as int);
        if open {
            open = !closes_list(word);
        } else if opens_list(word) {
            let n: usize = word.unicode_len();
            let text = word.substring_char(2, n);
            assert(text@ =~= word@.skip(2));
            open = !closes_list(text);
        } else if let Some((s, positive)) = side_of(word, names) {
            let b = half_space_aabb(&surfaces[s], positive);
            assert(side_boxes(group, names@, surfaces@, i + 1) == before.push(b));
            acc = match acc {
                None => {
                    proof {
                        lemma_meet_single(b);
                        assert(before.push(b) =~= seq![b]);
                    }
                    Some(b)
                },
                Some(a) => Some(a.meet(&b)),
            };
        }
        i += 1;
    }
    match acc {
        None => Aabb::infinite(),
        Some(b) => b,
    }
}

/// The box around a cell, read off its region expression. It encloses every group;
/// one that nothing bounds makes it the whole space.
pub fn aabb_from_region(expr: &str, surfaces: &Vec<Surface>, names: &Vec<String>) -> (r: Aabb)
    requires
        names@.len() == surfaces@.len(),
    ensures
        is_expression_box(r, expr@, names@, surfaces@),
{
    let chars = crate::text::chars_of(expr);
    let spans = find_groups(&chars);
    let ghost all = groups(expr@);
    let ghost mut boxes: Seq<Aabb> = Seq::empty();
    let mut acc: Option<Aabb> = None;
    let mut i: usize = 0;
    while i < spans.len()
        invariant
            chars@ == expr@,
            all == groups(expr@),
            all == group_texts(expr@, spans@),
            spans_within(expr@, spans@),
            names@.len() == surfaces@.len(),
            i <= spans@.len(),
            are_group_boxes(boxes, all, names@, surfaces@, i as int),
            match acc {
                None => boxes.len() == 0,
                Some(b) => boxes.len() > 0 && is_join(b, boxes),
            },
        decreases spans@.len() - i,
    {
        let span: Span = spans[i];
        let group = find_words(&chars, span.start, span.end);
        assert(span_texts(expr@, group@) == all[i as int]);
        assert(all[i as int].len() == group@.len());
        if group.len() > 0 {
            let b = group_box(expr, &group, names, surfaces);
            proof {
                assert(boxes.push(b).drop_last() =~= boxes);
            }
            acc = match acc {
                None => {
                    proof {
                        lemma_meet_single(b);
                        assert(boxes.push(b) =~= seq![b]);
                    }
                    Some(b)
                },
                Some(a) => Some(a.join(&b)),
            };
            proof {
                boxes = boxes.push(b);
            }
        }
        i += 1;
    }
    proof {
        assert(are_group_boxes(boxes, groups(expr@), names@, surfaces@, groups(expr@).len() as int));
    }
    match acc {
        None => Aabb::infinite(),
        Some(b) => b,
    }
}

/// A meaning comes from a group.
proof fn lemma_meaning_source(all: Seq<Seq<Seq<char>>>, names: Seq<String>, n: int, k: int) -> (g: int)
    requires
        0 <= n <= all.len(),
        meaning(all, names, n) is Ok,
        0 <= k < meaning(all, names, n)->Ok_0.len(),
    ensures
        0 <= g < n,
        all[g].len() > 0,
        group_factors(all[g], names) == Ok::<Seq<Factor>, RegionFault>(meaning(all, names, n)->Ok_0[k]),
    decreases n,
{
    let before = meaning(all, names, n - 1)->Ok_0;
    if all[n - 1].len() == 0 || k < before.len() {
        lemma_meaning_source(all, names, n - 1, k)
    } else {
        n - 1
    }
}

/// A list is open in what was read where one is open in the text.
proof fn lemma_scan_open(group: Seq<Seq<char>>, names: Seq<String>, n: int)
    requires
        0 <= n <= group.len(),
        scan(group, names, n) is Ok,
    ensures
        scan(group, names, n)->Ok_0.open is Some <==> list_open(group, n),
    decreases n,
{
    if n > 0 {
        lemma_scan_open(group, names, n - 1);
    }
}

/// Where everything in a group holds, the point lies in the boxes of the words that
/// bound it.
proof fn lemma_point_in_side_boxes(
    group: Seq<Seq<char>>,
    names: Seq<String>,
    surfaces: Seq<Surface>,
    n: int,
    on_side: spec_fn(int, bool) -> bool,
    p: Vec3,
)
    requires
        0 <= n <= group.len(),
        names.len() == surfaces.len(),
        names.len() <= usize::MAX,
        scan(group, names, n) is Ok,
        all_hold(scan(group, names, n)->Ok_0.factors, on_side),
        forall|i: int, positive: bool|
            0 <= i < surfaces.len() && #[trigger] on_side(i, positive) ==> in_box(
                half_space_box(surfaces[i], positive),
                p,
            ),
    ensures
        forall|i: int|
            0 <= i < side_boxes(group, names, surfaces, n).len() ==> in_box(
                #[trigger] side_boxes(group, names, surfaces, n)[i],
                p,
            ),
    decreases n,
{
    if n > 0 {
        let factors = scan(group, names, n)->Ok_0.factors;
        let before = scan(group, names, n - 1)->Ok_0.factors;
        let word = group[n - 1];
        lemma_scan_open(group, names, n - 1);
        assert forall|i: int| 0 <= i < before.len() implies factor_holds(#[trigger] before[i], on_side) by {
            assert(factors[i] == before[i]);
        }
        lemma_point_in_side_boxes(group, names, surfaces, n - 1, on_side, p);
        if bounding_side(word, names) is Some && !list_open(group, n - 1) {
            let (i, positive) = bounding_side(word, names)->0;
            reveal_strlit("&");
            assert("&"@[0] == '&');
            assert(!opens(word));
            assert(bare(word) == word);
            let w = choose|w: int| 0 <= w < names.len() && (#[trigger] names[w])@ == named(word);
            lemma_first_exists(names, named(word), w);
            let t = Term { surface: i as usize, inside: !positive, complement: false };
            assert(term_of(word, names) == Ok::<Option<Term>, RegionFault>(Some(t)));
            assert(factors[factors.len() - 1] == Factor::One(t));
            assert(factor_holds(factors[factors.len() - 1], on_side));
            assert(on_side(i, positive));
        }
        let boxes = side_boxes(group, names, surfaces, n);
        let fewer = side_boxes(group, names, surfaces, n - 1);
        assert forall|i: int| 0 <= i < boxes.len() implies in_box(#[trigger] boxes[i], p) by {
            if i < fewer.len() {
                assert(boxes[i] == fewer[i]);
            }
        }
    }
}

proof fn lemma_first_exists(names: Seq<String>, name: Seq<char>, w: int)
    requires
        0 <= w < names.len(),
        names[w]@ == name,
    ensures
        first_named(names, name, index_named(names, name)),
    decreases w,
{
    if exists|k: int| 0 <= k < w && (#[trigger] names[k])@ == name {
        let k = choose|k: int| 0 <= k < w && (#[trigger] names[k])@ == name;
        lemma_first_exists(names, name, k);
    } else {
        assert(first_named(names, name, w));
    }
}

/// A group with a word has its box among the boxes.
proof fn lemma_group_box_listed(
    boxes: Seq<Aabb>,
    all: Seq<Seq<Seq<char>>>,
    names: Seq<String>,
    surfaces: Seq<Surface>,
    n: int,
    g: int,
) -> (j: int)
    requires
        0 <= g < n <= all.len(),
        are_group_boxes(boxes, all, names, surfaces, n),
        all[g].len() > 0,
    ensures
        0 <= j < boxes.len(),
        is_group_box(boxes[j], all[g], names, surfaces),
    decreases n,
{
    if g == n - 1 {
        boxes.len() - 1
    } else if all[n - 1].len() == 0 {
        lemma_group_box_listed(boxes, all, names, surfaces, n - 1, g)
    } else {
        lemma_group_box_listed(boxes.drop_last(), all, names, surfaces, n - 1, g)
    }
}

/// The box of an expression holds every point of its region: every point whose
/// sides of the surfaces, in exact geometry, make the expression true. The boxes of
/// the surfaces themselves have to fit them.
pub proof fn law_box_encloses_every_point(
    r: Aabb,
    s: Seq<char>,
    names: Seq<String>,
    surfaces: Seq<Surface>,
    on_side: spec_fn(int, bool) -> bool,
    p: Vec3,
)
    requires
        is_expression_box(r, s, names, surfaces),
        expression_meaning(s, names) is Ok,
        names.len() == surfaces.len(),
        names.len() <= usize::MAX,
        is_point(p),
        forall|i: int| 0 <= i < surfaces.len() ==> box_fits(#[trigger] surfaces[i]),
        forall|i: int, positive: bool|
            0 <= i < surfaces.len() && #[trigger] on_side(i, positive) ==> lies_on(surfaces[i], positive, p),
        holds(
            region_of(expression_meaning(s, names)->Ok_0, expression_meaning(s, names)->Ok_0.len() as int),
            on_side,
        ),
    ensures
        in_box(r, p),
{
    assert forall|i: int, positive: bool|
        0 <= i < surfaces.len() && #[trigger] on_side(i, positive) implies in_box(
        half_space_box(surfaces[i], positive),
        p,
    ) by {
        law_side_lies_in_its_box(surfaces[i], positive, p);
    }
    law_box_encloses_region(r, s, names, surfaces, on_side, p);
}

/// The box of an expression holds every point of its region, where each side of a
/// surface lies in its own box.
pub proof fn law_box_encloses_region(
    r: Aabb,
    s: Seq<char>,
    names: Seq<String>,
    surfaces: Seq<Surface>,
    on_side: spec_fn(int, bool) -> bool,
    p: Vec3,
)
    requires
        is_expression_box(r, s, names, surfaces),
        expression_meaning(s, names) is Ok,
        names.len() == surfaces.len(),
        names.len() <= usize::MAX,
        is_point(p),
        forall|i: int, positive: bool|
            0 <= i < surfaces.len() && #[trigger] on_side(i, positive) ==> in_box(
                half_space_box(surfaces[i], positive),
                p,
            ),
        holds(
            region_of(expression_meaning(s, names)->Ok_0, expression_meaning(s, names)->Ok_0.len() as int),
            on_side,
        ),
    ensures
        in_box(r, p),
{
    let all = groups(s);
    let n = all.len() as int;
    let found = expression_meaning(s, names)->Ok_0;
    assert forall|g: int| 0 <= g < found.len() implies group_filled(#[trigger] found[g]) by {
        let source = lemma_meaning_source(all, names, n, g);
        lemma_scan_fills_lists(all[source], names, all[source].len() as int);
    }
    law_region_is_union_of_groups(found, found.len() as int, on_side);
    let k = choose|k: int| 0 <= k < found.len() && all_hold(#[trigger] found[k], on_side);
    let g = lemma_meaning_source(all, names, n, k);
    let sides = side_boxes(all[g], names, surfaces, all[g].len() as int);
    lemma_point_in_side_boxes(all[g], names, surfaces, all[g].len() as int, on_side, p);
    let boxes = choose|boxes: Seq<Aabb>| #[trigger]
        are_group_boxes(boxes, all, names, surfaces, n) && if boxes.len() == 0 {
            r == whole_space()
        } else {
            is_join(r, boxes)
        };
    let j = lemma_group_box_listed(boxes, all, names, surfaces, n, g);
    if sides.len() == 0 {
        law_whole_space_holds_every_point(p);
    } else {
        law_meet_holds_common_points(boxes[j], sides, p);
    }
    law_join_holds_all_points(r, boxes, j, p);
}

/// No character of the text is white space or a bar.
pub open spec fn is_plain(s: Seq<char>) -> bool {
    forall|i: int| 0 <= i < s.len() ==> !is_white(#[trigger] s[i]) && s[i] != '|'
}

proof fn lemma_word_len_of_word(t: Seq<char>, rest: Seq<char>)
    requires
        forall|i: int| 0 <= i < t.len() ==> !is_white(#[trigger] t[i]),
        rest.len() > 0 ==> is_white(rest[0]),
    ensures
        word_len(t + rest) == t.len(),
    decreases t.len(),
{
    if t.len() > 0 {
        assert((t + rest)[0] == t[0]);
        assert((t + rest).skip(1) =~= t.skip(1) + rest);
        assert forall|i: int| 0 <= i < t.skip(1).len() implies !is_white(#[trigger] t.skip(1)[i]) by {
            assert(t.skip(1)[i] == t[i + 1]);
        }
        lemma_word_len_of_word(t.skip(1), rest);
    } else {
        assert(t + rest =~= rest);
    }
}

/// A word, a blank and more text: the word comes first.
pub proof fn lemma_words_cons(t: Seq<char>, rest: Seq<char>)
    requires
        is_plain(t),
        t.len() > 0,
    ensures
        words(t + (seq![' '] + rest)) == seq![t] + words(rest),
{
    let tail = seq![' '] + rest;
    lemma_word_len_of_word(t, tail);
    let s = t + tail;
    assert(s[0] == t[0]);
    assert(s.take(t.len() as int) =~= t);
    assert(s.skip(t.len() as int) =~= tail);
    assert(tail[0] == ' ');
    assert(tail.skip(1) =~= rest);
    assert(words(tail) == words(rest));
}

/// A word alone.
pub proof fn lemma_words_one(t: Seq<char>)
    requires
        is_plain(t),
        t.len() > 0,
    ensures
        words(t) == seq![t],
{
    lemma_word_len_of_word(t, Seq::empty());
    assert(t + Seq::<char>::empty() =~= t);
    assert(t.take(t.len() as int) =~= t);
    assert(t.skip(t.len() as int) =~= Seq::empty());
    assert(words(Seq::<char>::empty()) == Seq::<Seq<char>>::empty());
    assert(words(t) =~= seq![t]);
}

/// A text without a bar is one group.
pub proof fn lemma_one_group(s: Seq<char>)
    requires
        forall|i: int| 0 <= i < s.len() ==> #[trigger] s[i] != '|',
    ensures
        groups(s) == seq![words(s)],
{
    lemma_group_len(s);
}

/// Word `k` of a group stands in a list.
pub open spec fn in_list(group: Seq<Seq<char>>, k: int) -> bool {
    list_open(group, k) || opens(group[k])
}

/// What word `k` of a group says, without the signs that open and close a list.
pub open spec fn content(group: Seq<Seq<char>>, k: int) -> Seq<char> {
    if list_open(group, k) {
        listed(group[k])
    } else if opens(group[k]) {
        listed(group[k].skip(2))
    } else {
        group[k]
    }
}

/// Word `k` of a group ends a list.
pub open spec fn ends_list(group: Seq<Seq<char>>, k: int) -> bool {
    if list_open(group, k) {
        closes(group[k])
    } else {
        opens(group[k]) && closes(group[k].skip(2))
    }
}

/// Word `k` of a group says nothing: it is `&`, or it only opens or closes a list.
pub open spec fn is_silent(group: Seq<Seq<char>>, k: int) -> bool {
    content(group, k) == "&"@ || (in_list(group, k) && content(group, k).len() == 0)
}

/// Word `k` of a group says nothing, or is a side of a known surface.
pub open spec fn is_readable(group: Seq<Seq<char>>, names: Seq<String>, k: int) -> bool {
    is_silent(group, k) || (is_half_space(content(group, k)) && is_named(names, named(content(group, k))))
}

/// How many words say something in the list that is open before word `k`.
pub open spec fn list_count(group: Seq<Seq<char>>, k: int) -> int
    decreases k,
{
    if k <= 0 || !list_open(group, k) {
        0
    } else {
        list_count(group, k - 1) + if is_silent(group, k - 1) {
            0int
        } else {
            1int
        }
    }
}

/// Word `k` does not end a list in which nothing is said.
pub open spec fn list_said(group: Seq<Seq<char>>, k: int) -> bool {
    ends_list(group, k) ==> list_count(group, k) > 0 || !is_silent(group, k)
}

/// With word `k` something more stands in the group: a word on its own, or a list.
pub open spec fn is_completed(group: Seq<Seq<char>>, k: int) -> bool {
    ends_list(group, k) || (!in_list(group, k) && !is_silent(group, k))
}

/// A group can be read: every word can, every list has an end and says something,
/// and something stands in the group.
pub open spec fn group_reads(group: Seq<Seq<char>>, names: Seq<String>) -> bool {
    &&& forall|k: int| 0 <= k < group.len() ==> #[trigger] is_readable(group, names, k) && list_said(group, k)
    &&& !list_open(group, group.len() as int)
    &&& exists|k: int| 0 <= k < group.len() && #[trigger] is_completed(group, k)
}

/// The first `n` words of a group can be read, and no list among them says nothing.
spec fn words_read(group: Seq<Seq<char>>, names: Seq<String>, n: int) -> bool {
    forall|k: int| 0 <= k < n ==> #[trigger] is_readable(group, names, k) && list_said(group, k)
}

proof fn lemma_word_reads(group: Seq<Seq<char>>, names: Seq<String>, k: int, s: Scan)
    requires
        0 <= k < group.len(),
        s.open is Some <==> list_open(group, k),
        s.open is Some ==> s.open->0.len() == list_count(group, k),
    ensures
        read_word(s, group[k], names) is Ok <==> is_readable(group, names, k) && list_said(group, k),
        read_word(s, group[k], names) matches Ok(r) ==> {
            &&& r.open is Some <==> list_open(group, k + 1)
            &&& r.open is Some ==> r.open->0.len() == list_count(group, k + 1)
            &&& r.factors.len() == s.factors.len() + if is_completed(group, k) {
                1int
            } else {
                0int
            }
        },
{
    reveal_strlit("&");
    assert("&"@.len() == 1);
    let word = group[k];
    let c = content(group, k);
    assert(c.len() > 0 ==> (term_of(c, names) is Ok <==> is_readable(group, names, k)));
    assert(term_of(c, names) == Ok::<Option<Term>, RegionFault>(None) <==> c == "&"@);
    if s.open is None {
        assert(list_count(group, k) == 0);
    }
}

proof fn lemma_scan_reads(group: Seq<Seq<char>>, names: Seq<String>, n: int)
    requires
        0 <= n <= group.len(),
    ensures
        scan(group, names, n) is Ok <==> words_read(group, names, n),
        scan(group, names, n) matches Ok(s) ==> {
            &&& s.open is Some <==> list_open(group, n)
            &&& s.open is Some ==> s.open->0.len() == list_count(group, n)
            &&& s.factors.len() > 0 <==> exists|k: int| 0 <= k < n && #[trigger] is_completed(group, k)
        },
    decreases n,
{
    if n > 0 {
        let k = n - 1;
        lemma_scan_reads(group, names, k);
        assert(words_read(group, names, n) <==> words_read(group, names, k) && is_readable(group, names, k)
            && list_said(group, k)) by {
            if words_read(group, names, n) {
                assert(is_readable(group, names, k));
                assert forall|j: int| 0 <= j < k implies #[trigger] is_readable(group, names, j) && list_said(
                    group,
                    j,
                ) by {}
            }
        }
        if scan(group, names, k) is Ok {
            let s = scan(group, names, k)->Ok_0;
            lemma_word_reads(group, names, k, s);
            if s.factors.len() > 0 {
                let j = choose|j: int| 0 <= j < k && #[trigger] is_completed(group, j);
                assert(0 <= j < n && is_completed(group, j));
            }
            if is_completed(group, k) {
                assert(0 <= k < n && is_completed(group, k));
            }
        }
    }
}

/// A group is refused exactly where it cannot be read.
pub proof fn law_group_is_refused_exactly(group: Seq<Seq<char>>, names: Seq<String>)
    ensures
        group_factors(group, names) is Ok <==> group_reads(group, names),
{
    lemma_scan_reads(group, names, group.len() as int);
}

/// An expression is refused exactly where it has no word, or a group with words that
/// cannot be read.
pub proof fn law_expression_is_refused_exactly(s: Seq<char>, names: Seq<String>)
    ensures
        expression_meaning(s, names) is Ok <==> {
            &&& exists|g: int| 0 <= g < groups(s).len() && (#[trigger] groups(s)[g]).len() > 0
            &&& forall|g: int|
                0 <= g < groups(s).len() && (#[trigger] groups(s)[g]).len() > 0 ==> group_reads(groups(s)[g], names)
        },
{
    lemma_meaning_reads(groups(s), names, groups(s).len() as int);
}

proof fn lemma_meaning_reads(all: Seq<Seq<Seq<char>>>, names: Seq<String>, n: int)
    requires
        0 <= n <= all.len(),
    ensures
        meaning(all, names, n) is Ok <==> forall|g: int|
            0 <= g < n && (#[trigger] all[g]).len() > 0 ==> group_reads(all[g], names),
        meaning(all, names, n) matches Ok(m) ==> (m.len() > 0 <==> exists|g: int|
            0 <= g < n && (#[trigger] all[g]).len() > 0),
    decreases n,
{
    if n > 0 {
        lemma_meaning_reads(all, names, n - 1);
        law_group_is_refused_exactly(all[n - 1], names);
        if meaning(all, names, n - 1) is Err {
            let g = choose|g: int| 0 <= g < n - 1 && (#[trigger] all[g]).len() > 0 && !group_reads(all[g], names);
            assert(all[g].len() > 0);
        } else if meaning(all, names, n) is Ok && meaning(all, names, n)->Ok_0.len() > 0 && all[n - 1].len() == 0 {
            let g = choose|g: int| 0 <= g < n - 1 && (#[trigger] all[g]).len() > 0;
            assert(all[g].len() > 0);
        }
    }
}

/// `&` among the words of a group changes nothing.
proof fn lemma_ampersand_in_group(a: Seq<Seq<char>>, b: Seq<Seq<char>>, names: Seq<String>, k: int)
    requires
        0 <= k <= b.len(),
    ensures
        scan(a + seq!["&"@] + b, names, a.len() + 1 + k) == scan(a + b, names, a.len() + k),
    decreases k,
{
    let with = a + seq!["&"@] + b;
    let without = a + b;
    if k == 0 {
        lemma_scan_prefix(with, without, names, a.len() as int);
        assert(with[a.len() as int] == "&"@);
        reveal_strlit("&");
        assert(!opens("&"@));
        assert(!closes("&"@));
        assert(listed("&"@) == "&"@);
    } else {
        lemma_ampersand_in_group(a, b, names, k - 1);
        assert(with[a.len() + k] == b[k - 1]);
        assert(without[a.len() + k - 1] == b[k - 1]);
    }
}

proof fn lemma_scan_prefix(a: Seq<Seq<char>>, b: Seq<Seq<char>>, names: Seq<String>, n: int)
    requires
        0 <= n <= a.len(),
        n <= b.len(),
        forall|i: int| 0 <= i < n ==> a[i] == b[i],
    ensures
        scan(a, names, n) == scan(b, names, n),
    decreases n,
{
    if n > 0 {
        lemma_scan_prefix(a, b, names, n - 1);
    }
}

proof fn lemma_words_join(a: Seq<char>, b: Seq<char>)
    ensures
        words(a + (seq![' '] + b)) == words(a) + words(b),
    decreases a.len(),
{
    let tail = seq![' '] + b;
    let s = a + tail;
    if a.len() == 0 {
        assert(s =~= tail);
        assert(tail.skip(1) =~= b);
        assert(words(a) + words(b) =~= words(b));
    } else if is_white(a[0]) {
        assert(s[0] == a[0]);
        assert(s.skip(1) =~= a.skip(1) + tail);
        lemma_words_join(a.skip(1), b);
    } else {
        lemma_word_len(a);
        let n = word_len(a);
        let word = a.take(n);
        let rest = a.skip(n);
        assert(n > 0);
        assert(a =~= word + rest);
        assert(s =~= word + (rest + tail));
        assert((rest + tail)[0] == if rest.len() > 0 {
            rest[0]
        } else {
            ' '
        });
        if rest.len() > 0 {
            assert(rest[0] == a[n]);
        }
        assert forall|i: int| 0 <= i < word.len() implies !is_white(#[trigger] word[i]) by {
            assert(word[i] == a[i]);
        }
        lemma_word_len_of_word(word, rest + tail);
        assert(s[0] == a[0]);
        assert(s.take(n) =~= word);
        assert(s.skip(n) =~= rest + tail);
        lemma_words_join(rest, b);
        assert(words(s) == seq![word] + (words(rest) + words(b)));
        assert(words(a) == seq![word] + words(rest));
        assert(words(s) =~= words(a) + words(b));
    }
}

/// The text with `&` between two parts.
pub open spec fn with_ampersand(x: Seq<char>, y: Seq<char>) -> Seq<char> {
    x + (seq![' '] + (seq!['&'] + (seq![' '] + y)))
}

/// The text with a blank between two parts.
pub open spec fn with_blank(x: Seq<char>, y: Seq<char>) -> Seq<char> {
    x + (seq![' '] + y)
}

proof fn lemma_ampersand_words(x: Seq<char>, y: Seq<char>)
    ensures
        words(with_ampersand(x, y)) == words(x) + seq!["&"@] + words(y),
        words(with_blank(x, y)) == words(x) + words(y),
{
    reveal_strlit("&");
    lemma_words_join(x, y);
    lemma_words_join(x, seq!['&'] + (seq![' '] + y));
    lemma_words_join(seq!['&'], y);
    lemma_words_one(seq!['&']);
    assert(seq!['&'] =~= "&"@);
    assert(words(with_ampersand(x, y)) =~= words(x) + seq!["&"@] + words(y));
}

proof fn lemma_group_len_behind(x: Seq<char>, y: Seq<char>)
    requires
        forall|i: int| 0 <= i < x.len() ==> #[trigger] x[i] != '|',
    ensures
        group_len(x + y) == x.len() + group_len(y),
    decreases x.len(),
{
    if x.len() == 0 {
        assert(x + y =~= y);
    } else {
        assert((x + y)[0] == x[0]);
        assert((x + y).skip(1) =~= x.skip(1) + y);
        assert forall|i: int| 0 <= i < x.skip(1).len() implies #[trigger] x.skip(1)[i] != '|' by {
            assert(x.skip(1)[i] == x[i + 1]);
        }
        lemma_group_len_behind(x.skip(1), y);
    }
}

/// Groups that differ in one place, by one `&`.
spec fn differ_by_ampersand(
    with: Seq<Seq<Seq<char>>>,
    without: Seq<Seq<Seq<char>>>,
    g: int,
    a: Seq<Seq<char>>,
    b: Seq<Seq<char>>,
) -> bool {
    &&& with.len() == without.len()
    &&& 0 <= g < with.len()
    &&& forall|i: int| 0 <= i < with.len() && i != g ==> with[i] == without[i]
    &&& with[g] == a + seq!["&"@] + b
    &&& without[g] == a + b
    &&& a.len() > 0
}

proof fn lemma_words_of_text(x: Seq<char>)
    requires
        x.len() > 0,
        !is_white(x.last()),
    ensures
        words(x).len() > 0,
    decreases x.len(),
{
    if is_white(x[0]) {
        assert(x.skip(1).last() == x.last());
        lemma_words_of_text(x.skip(1));
    }
}

proof fn lemma_ampersand_groups(x: Seq<char>, y: Seq<char>) -> (r: (int, Seq<Seq<char>>, Seq<Seq<char>>))
    requires
        x.len() > 0,
        !is_white(x.last()) && x.last() != '|',
    ensures
        differ_by_ampersand(groups(with_ampersand(x, y)), groups(with_blank(x, y)), r.0, r.1, r.2),
    decreases x.len(),
{
    let with = with_ampersand(x, y);
    let without = with_blank(x, y);
    lemma_group_len(x);
    let n = group_len(x);
    if n < x.len() {
        let head = x.take(n);
        let rest = x.skip(n + 1);
        assert(n + 1 < x.len());
        assert(rest.last() == x.last());
        let more_with = with_ampersand(rest, y);
        let more_without = with_blank(rest, y);
        assert forall|i: int| 0 <= i < head.len() implies #[trigger] head[i] != '|' by {
            assert(head[i] == x[i]);
        }
        assert(x =~= head + (seq!['|'] + rest));
        assert(with =~= head + (seq!['|'] + more_with));
        assert(without =~= head + (seq!['|'] + more_without));
        lemma_group_len_behind(head, seq!['|'] + more_with);
        lemma_group_len_behind(head, seq!['|'] + more_without);
        assert((seq!['|'] + more_with)[0] == '|');
        assert((seq!['|'] + more_without)[0] == '|');
        assert(group_len(with) == n && group_len(without) == n);
        assert(with.take(n) =~= head && without.take(n) =~= head);
        assert(with.skip(n + 1) =~= more_with && without.skip(n + 1) =~= more_without);
        let r = lemma_ampersand_groups(rest, y);
        assert(groups(with) == seq![words(head)] + groups(more_with));
        assert(groups(without) == seq![words(head)] + groups(more_without));
        assert(differ_by_ampersand(groups(with), groups(without), r.0 + 1, r.1, r.2));
        (r.0 + 1, r.1, r.2)
    } else {
        assert forall|i: int| 0 <= i < x.len() implies #[trigger] x[i] != '|' by {}
        lemma_group_len(y);
        let m = group_len(y);
        let first = y.take(m);
        let signs = seq![' '] + (seq!['&'] + seq![' ']);
        let xs = x + signs;
        let xb = x + seq![' '];
        assert forall|i: int| 0 <= i < xs.len() implies #[trigger] xs[i] != '|' by {
            if i < x.len() {
                assert(xs[i] == x[i]);
            }
        }
        assert forall|i: int| 0 <= i < xb.len() implies #[trigger] xb[i] != '|' by {
            if i < x.len() {
                assert(xb[i] == x[i]);
            }
        }
        assert(with =~= xs + y);
        assert(without =~= xb + y);
        lemma_group_len_behind(xs, y);
        lemma_group_len_behind(xb, y);
        lemma_ampersand_words(x, first);
        lemma_words_of_text(x);
        let a = words(x);
        let b = words(first);
        if m < y.len() {
            assert(with.take(xs.len() + m) =~= with_ampersand(x, first));
            assert(without.take(xb.len() + m) =~= with_blank(x, first));
            assert(with.skip(xs.len() + m + 1) =~= y.skip(m + 1));
            assert(without.skip(xb.len() + m + 1) =~= y.skip(m + 1));
            assert(groups(with) == seq![words(with_ampersand(x, first))] + groups(y.skip(m + 1)));
            assert(groups(without) == seq![words(with_blank(x, first))] + groups(y.skip(m + 1)));
        } else {
            assert(first =~= y);
            assert(groups(with) == seq![words(with)]);
            assert(groups(without) == seq![words(without)]);
        }
        assert(differ_by_ampersand(groups(with), groups(without), 0, a, b));
        (0, a, b)
    }
}

proof fn lemma_ampersand_meaning(
    with: Seq<Seq<Seq<char>>>,
    without: Seq<Seq<Seq<char>>>,
    g: int,
    a: Seq<Seq<char>>,
    b: Seq<Seq<char>>,
    names: Seq<String>,
    n: int,
)
    requires
        differ_by_ampersand(with, without, g, a, b),
        0 <= n <= with.len(),
    ensures
        meaning(with, names, n) == meaning(without, names, n),
    decreases n,
{
    if n > 0 {
        lemma_ampersand_meaning(with, without, g, a, b, names, n - 1);
        if n - 1 == g {
            lemma_ampersand_in_group(a, b, names, b.len() as int);
            assert(group_factors(with[g], names) == group_factors(without[g], names));
        } else {
            assert(with[n - 1] == without[n - 1]);
        }
    }
}

/// A lone `&` behind a word changes nothing: it means the same as the blank alone.
pub proof fn law_ampersand_changes_nothing(x: Seq<char>, y: Seq<char>, names: Seq<String>)
    requires
        x.len() > 0,
        !is_white(x.last()) && x.last() != '|',
    ensures
        expression_meaning(with_ampersand(x, y), names) == expression_meaning(with_blank(x, y), names),
{
    let (g, a, b) = lemma_ampersand_groups(x, y);
    let with = groups(with_ampersand(x, y));
    let without = groups(with_blank(x, y));
    lemma_ampersand_meaning(with, without, g, a, b, names, with.len() as int);
}

/// The complement of a list of two words.
pub open spec fn not_both(v: Seq<char>, w: Seq<char>) -> Seq<char> {
    seq!['~'] + (seq!['('] + (v + (seq![' '] + (w + seq![')']))))
}

/// A list under a complement means that not all of its words hold: with two words,
/// a point lies in the region exactly where it does not satisfy both.
pub proof fn law_complemented_list_means_not_all(
    v: Seq<char>,
    w: Seq<char>,
    names: Seq<String>,
    t: Term,
    u: Term,
    on_side: spec_fn(int, bool) -> bool,
)
    requires
        is_plain(v) && is_plain(w),
        !closes(v),
        term_of(v, names) == Ok::<Option<Term>, RegionFault>(Some(t)),
        term_of(w, names) == Ok::<Option<Term>, RegionFault>(Some(u)),
    ensures
        expression_meaning(not_both(v, w), names) == Ok::<Seq<Seq<Factor>>, RegionFault>(
            seq![seq![Factor::NotAll(seq![t, u])]],
        ),
        holds(region_of(seq![seq![Factor::NotAll(seq![t, u])]], 1), on_side) <==> !(term_holds(t, on_side)
            && term_holds(u, on_side)),
{
    let s = not_both(v, w);
    let first = seq!['~'] + (seq!['('] + v);
    let second = w + seq![')'];
    reveal_strlit("&");
    assert(v.len() > 0) by {
        if v.len() == 0 {
            assert("&"@.len() == 1);
            assert(bare(v).len() == 0);
        }
    }
    assert forall|i: int| 0 <= i < first.len() implies !is_white(#[trigger] first[i]) && first[i] != '|' by {
        if i >= 2 {
            assert(first[i] == v[i - 2]);
        }
    }
    assert forall|i: int| 0 <= i < second.len() implies !is_white(#[trigger] second[i]) && second[i] != '|' by {
        if i < w.len() {
            assert(second[i] == w[i]);
        }
    }
    assert(s =~= first + (seq![' '] + second));
    lemma_words_cons(first, second);
    lemma_words_one(second);
    assert forall|i: int| 0 <= i < s.len() implies #[trigger] s[i] != '|' by {
        if i < first.len() {
            assert(s[i] == first[i]);
        } else if i > first.len() {
            assert(s[i] == second[i - first.len() - 1]);
        }
    }
    lemma_one_group(s);
    let group = seq![first, second];
    assert(words(s) =~= group);
    assert(first.skip(2) =~= v);
    assert(second.drop_last() =~= w);
    assert(second.last() == ')');
    assert(w.len() > 0) by {
        if w.len() == 0 {
            assert("&"@.len() == 1);
            assert(bare(w).len() == 0);
        }
    }
    assert(listed(v) == v);
    assert(scan(group, names, 0) == Ok::<Scan, RegionFault>(Scan { factors: Seq::empty(), open: None }));
    assert(scan(group, names, 1) == Ok::<Scan, RegionFault>(
        Scan { factors: Seq::empty(), open: Some(Seq::<Term>::empty().push(t)) },
    ));
    let list = Seq::<Term>::empty().push(t).push(u);
    assert(list =~= seq![t, u]);
    let factors = Seq::<Factor>::empty().push(Factor::NotAll(list));
    assert(factors =~= seq![Factor::NotAll(seq![t, u])]);
    assert(scan(group, names, 2) == Ok::<Scan, RegionFault>(Scan { factors, open: None }));
    let all = groups(s);
    assert(all =~= seq![group]);
    assert(meaning(all, names, 0) == Ok::<Seq<Seq<Factor>>, RegionFault>(Seq::empty()));
    assert(meaning(all, names, 1) == Ok::<Seq<Seq<Factor>>, RegionFault>(
        Seq::<Seq<Factor>>::empty().push(factors),
    ));
    assert(Seq::<Seq<Factor>>::empty().push(factors) =~= seq![factors]);
    let found = seq![seq![Factor::NotAll(seq![t, u])]];
    assert(group_filled(found[0]));
    lemma_group_region(found[0], 1, on_side);
    assert(factor_holds(found[0][0], on_side) <==> !terms_hold(seq![t, u], on_side));
    assert(seq![t, u][0] == t && seq![t, u][1] == u);
}

proof fn lemma_group_len_of_joined(a: Seq<char>, b: Seq<char>)
    ensures
        group_len(a + (seq!['|'] + b)) == group_len(a),
    decreases a.len(),
{
    let s = a + (seq!['|'] + b);
    if a.len() > 0 {
        assert(s[0] == a[0]);
        assert(s.skip(1) =~= a.skip(1) + (seq!['|'] + b));
        lemma_group_len_of_joined(a.skip(1), b);
    } else {
        assert(s[0] == '|');
    }
}

/// The groups of two texts with a bar between them are those of both.
proof fn lemma_groups_of_joined(a: Seq<char>, b: Seq<char>)
    ensures
        groups(a + (seq!['|'] + b)) == groups(a) + groups(b),
    decreases a.len(),
{
    let s = a + (seq!['|'] + b);
    let n = group_len(a);
    lemma_group_len_of_joined(a, b);
    lemma_group_len(a);
    assert(s.take(n) =~= a.take(n));
    if n < a.len() {
        assert(s.skip(n + 1) =~= a.skip(n + 1) + (seq!['|'] + b));
        lemma_groups_of_joined(a.skip(n + 1), b);
        assert(groups(s) =~= groups(a) + groups(b));
    } else {
        assert(a.take(n) =~= a);
        assert(s.skip(n + 1) =~= b);
        assert(groups(s) =~= groups(a) + groups(b));
    }
}

proof fn lemma_meaning_of_prefix(x: Seq<Seq<Seq<char>>>, y: Seq<Seq<Seq<char>>>, names: Seq<String>, n: int)
    requires
        0 <= n <= x.len(),
    ensures
        meaning(x + y, names, n) == meaning(x, names, n),
    decreases n,
{
    if n > 0 {
        lemma_meaning_of_prefix(x, y, names, n - 1);
        assert((x + y)[n - 1] == x[n - 1]);
    }
}

proof fn lemma_meaning_of_joined(x: Seq<Seq<Seq<char>>>, y: Seq<Seq<Seq<char>>>, names: Seq<String>, n: int)
    requires
        0 <= n <= y.len(),
        meaning(x, names, x.len() as int) is Ok,
        meaning(y, names, n) is Ok,
    ensures
        meaning(x + y, names, x.len() + n) == Ok::<Seq<Seq<Factor>>, RegionFault>(
            meaning(x, names, x.len() as int)->Ok_0 + meaning(y, names, n)->Ok_0,
        ),
    decreases n,
{
    let done = meaning(x, names, x.len() as int)->Ok_0;
    if n == 0 {
        lemma_meaning_of_prefix(x, y, names, x.len() as int);
        assert(done + Seq::<Seq<Factor>>::empty() =~= done);
    } else {
        lemma_meaning_of_joined(x, y, names, n - 1);
        assert((x + y)[x.len() + n - 1] == y[n - 1]);
        if y[n - 1].len() > 0 {
            let more = group_factors(y[n - 1], names)->Ok_0;
            let before = meaning(y, names, n - 1)->Ok_0;
            assert((done + before).push(more) =~= done + before.push(more));
        }
    }
}

/// The region of an expression has only filled groups.
proof fn lemma_meaning_is_filled(s: Seq<char>, names: Seq<String>)
    requires
        expression_meaning(s, names) is Ok,
    ensures
        ({
            let found = expression_meaning(s, names)->Ok_0;
            found.len() > 0 && forall|g: int| 0 <= g < found.len() ==> group_filled(#[trigger] found[g])
        }),
{
    let all = groups(s);
    let found = expression_meaning(s, names)->Ok_0;
    assert forall|g: int| 0 <= g < found.len() implies group_filled(#[trigger] found[g]) by {
        let source = lemma_meaning_source(all, names, all.len() as int, g);
        lemma_scan_fills_lists(all[source], names, all[source].len() as int);
    }
}

/// A bar means either: where two expressions are understood, so are both with a bar
/// between them, and a point lies in the region of that exactly where it lies in the
/// region of one of them.
pub proof fn law_bar_means_either(
    a: &str,
    b: &str,
    joined: &str,
    names: &Vec<String>,
    ra: Region,
    rb: Region,
    r: Result<Region, RegionError>,
    sides: spec_fn(int, bool) -> bool,
)
    requires
        call_ensures(build_region, (a, names), Ok(ra)),
        call_ensures(build_region, (b, names), Ok(rb)),
        call_ensures(build_region, (joined, names), r),
        joined@ == a@ + (seq!['|'] + b@),
    ensures
        r is Ok,
        holds(r->Ok_0, sides) <==> holds(ra, sides) || holds(rb, sides),
{
    let x = expression_meaning(a@, names@)->Ok_0;
    let y = expression_meaning(b@, names@)->Ok_0;
    lemma_groups_of_joined(a@, b@);
    lemma_meaning_of_joined(groups(a@), groups(b@), names@, groups(b@).len() as int);
    assert(expression_meaning(joined@, names@) == Ok::<Seq<Seq<Factor>>, RegionFault>(x + y));
    let all = x + y;
    lemma_meaning_is_filled(a@, names@);
    lemma_meaning_is_filled(b@, names@);
    assert forall|g: int| 0 <= g < all.len() implies group_filled(#[trigger] all[g]) by {
        if g < x.len() {
            assert(all[g] == x[g]);
        } else {
            assert(all[g] == y[g - x.len()]);
        }
    }
    law_region_is_union_of_groups(x, x.len() as int, sides);
    law_region_is_union_of_groups(y, y.len() as int, sides);
    law_region_is_union_of_groups(all, all.len() as int, sides);
    if holds(ra, sides) {
        let g = choose|g: int| 0 <= g < x.len() && all_hold(#[trigger] x[g], sides);
        assert(all_hold(all[g], sides));
    }
    if holds(rb, sides) {
        let g = choose|g: int| 0 <= g < y.len() && all_hold(#[trigger] y[g], sides);
        assert(all_hold(all[x.len() + g], sides));
    }
    if holds(r->Ok_0, sides) {
        let g = choose|g: int| 0 <= g < all.len() && all_hold(#[trigger] all[g], sides);
        if g < x.len() {
            assert(all_hold(x[g], sides));
        } else {
            assert(all_hold(y[g - x.len()], sides));
        }
    }
}

/// The box of an expression holds every point of the region that is built from it.
pub proof fn law_box_encloses_the_region_built(
    expr: &str,
    surfaces: &Vec<Surface>,
    names: &Vec<String>,
    b: Aabb,
    region: Region,
    sides: spec_fn(int, bool) -> bool,
    p: Vec3,
)
    requires
        call_ensures(aabb_from_region, (expr, surfaces, names), b),
        call_ensures(build_region, (expr, names), Ok(region)),
        names@.len() == surfaces@.len(),
        is_point(p),
        forall|i: int| 0 <= i < surfaces@.len() ==> box_fits(#[trigger] surfaces@[i]),
        forall|i: int, positive: bool|
            0 <= i < surfaces@.len() && #[trigger] sides(i, positive) ==> lies_on(surfaces@[i], positive, p),
        holds(region, sides),
    ensures
        in_box(b, p),
{
    assert(names.len() == names@.len());
    law_box_encloses_every_point(b, expr@, names@, surfaces@, sides, p);
}

/// A name is found at its first place in a list, and nowhere where it is not in it.
pub proof fn law_name_is_found_at_its_first_place(names: &Vec<String>, name: &str, r: Option<usize>, k: int)
    requires
        call_ensures(find_name, (names, name), r),
        0 <= k < names@.len(),
        names@[k]@ == name@,
    ensures
        r matches Some(i) ==> i <= k && names@[i as int]@ == name@,
        r is Some,
{
}

proof fn lemma_side_box_is_listed(
    group: Seq<Seq<char>>,
    names: Seq<String>,
    surfaces: Seq<Surface>,
    n: int,
    k: int,
)
    requires
        0 <= k < n <= group.len(),
        !list_open(group, k),
        bounding_side(group[k], names) is Some,
    ensures
        side_boxes(group, names, surfaces, n).contains(
            half_space_box(
                surfaces[(bounding_side(group[k], names)->0).0],
                (bounding_side(group[k], names)->0).1,
            ),
        ),
    decreases n,
{
    let b = half_space_box(
        surfaces[(bounding_side(group[k], names)->0).0],
        (bounding_side(group[k], names)->0).1,
    );
    let now = side_boxes(group, names, surfaces, n);
    let before = side_boxes(group, names, surfaces, n - 1);
    if k == n - 1 {
        assert(now.last() == b);
        assert(now[now.len() - 1] == b);
    } else {
        lemma_side_box_is_listed(group, names, surfaces, n - 1, k);
        let i = choose|i: int| 0 <= i < before.len() && before[i] == b;
        assert(now[i] == b);
    }
}

/// The box of an expression without bars lies within the box of each side that it names:
/// it is no larger than any of its sides allows.
pub proof fn law_box_lies_within_each_side(
    expr: &str,
    surfaces: &Vec<Surface>,
    names: &Vec<String>,
    b: Aabb,
    k: int,
    sign: char,
    name: Seq<char>,
    i: int,
    p: Vec3,
)
    requires
        call_ensures(aabb_from_region, (expr, surfaces, names), b),
        forall|j: int| 0 <= j < expr@.len() ==> #[trigger] expr@[j] != '|',
        0 <= k < words(expr@).len(),
        !list_open(words(expr@), k),
        words(expr@)[k] == seq![sign] + name,
        sign == '+' || sign == '-',
        first_named(names@, name, i),
        is_point(half_space_box(surfaces@[i], sign == '+').min),
        is_point(half_space_box(surfaces@[i], sign == '+').max),
        in_box(b, p),
    ensures
        in_box(half_space_box(surfaces@[i], sign == '+'), p),
{
    let group = words(expr@);
    let side = half_space_box(surfaces@[i], sign == '+');
    lemma_one_group(expr@);
    let all = groups(expr@);
    assert(all.len() == 1 && all[0] == group);
    assert((seq![sign] + name)[0] == sign);
    assert((seq![sign] + name).skip(1) =~= name);
    lemma_first_named_unique(names@, name, i);
    assert(bounding_side(group[k], names@) == Some((i, sign == '+')));
    let sides = side_boxes(group, names@, surfaces@, group.len() as int);
    lemma_side_box_is_listed(group, names@, surfaces@, group.len() as int, k);
    let boxes = choose|boxes: Seq<Aabb>| #[trigger]
        are_group_boxes(boxes, all, names@, surfaces@, 1) && if boxes.len() == 0 {
            b == whole_space()
        } else {
            is_join(b, boxes)
        };
    reveal_with_fuel(are_group_boxes, 3);
    assert(boxes.len() == 1) by {
        assert(boxes.drop_last().len() == 0);
    }
    let only = boxes[0];
    assert(is_meet(only, sides));
    assert(boxes =~= seq![only]);
    let (ix, iy, iz) = (
        boxes.map_values(|c: Aabb| c.min.x),
        boxes.map_values(|c: Aabb| c.min.y),
        boxes.map_values(|c: Aabb| c.min.z),
    );
    let (ax, ay, az) = (
        boxes.map_values(|c: Aabb| c.max.x),
        boxes.map_values(|c: Aabb| c.max.y),
        boxes.map_values(|c: Aabb| c.max.z),
    );
    assert(b == only) by {
        assert(ix =~= seq![only.min.x] && iy =~= seq![only.min.y] && iz =~= seq![only.min.z]);
        assert(ax =~= seq![only.max.x] && ay =~= seq![only.max.y] && az =~= seq![only.max.z]);
    }
    let at = choose|at: int| 0 <= at < sides.len() && sides[at] == side;
    assert(sides.map_values(|c: Aabb| c.min.x)[at] == side.min.x);
    assert(sides.map_values(|c: Aabb| c.min.y)[at] == side.min.y);
    assert(sides.map_values(|c: Aabb| c.min.z)[at] == side.min.z);
    assert(sides.map_values(|c: Aabb| c.max.x)[at] == side.max.x);
    assert(sides.map_values(|c: Aabb| c.max.y)[at] == side.max.y);
    assert(sides.map_values(|c: Aabb| c.max.z)[at] == side.max.z);
}

/// Words are parted by white space: a blank, a tab or a line end between two words means
/// the same.
pub proof fn law_white_space_parts_words(t: Seq<char>, rest: Seq<char>, c: char)
    requires
        is_plain(t),
        t.len() > 0,
        c == ' ' || c == '\t' || c == '\n' || c == '\r',
    ensures
        words(t + (seq![c] + rest)) == seq![t] + words(rest),
{
    let tail = seq![c] + rest;
    assert(is_white(c));
    assert(tail[0] == c);
    lemma_word_len_of_word(t, tail);
    let s = t + tail;
    assert(s[0] == t[0]);
    assert(s.take(t.len() as int) =~= t);
    assert(s.skip(t.len() as int) =~= tail);
    assert(tail.skip(1) =~= rest);
    assert(words(tail) == words(rest));
}

} // verus!
