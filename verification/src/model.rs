//! The mathematical model of the library: ghost mirrors of the parsed values,
//! of the parsers themselves, and the spec-level interpreter that gives every
//! parser its meaning over a sequence of characters.
//!
//! An input view is a suffix of the source text, modelled as a `Seq<char>`.
//! A parse result is either a value together with the remaining view, or a
//! failure carrying a view.

use vstd::prelude::*;

verus! {

// ---------------------------------------------------------------------------
// Character classes.
//
// The grammar tells characters apart with the Unicode classification methods
// of `char`. Their exact extension is a property of the character alone, far
// too large to restate here, so each gets an uninterpreted name that the
// trusted specifications below tie to the corresponding `char` method.
// ---------------------------------------------------------------------------

pub uninterp spec fn whitespace(c: char) -> bool;

pub uninterp spec fn alphabetic(c: char) -> bool;

pub uninterp spec fn alphanumeric(c: char) -> bool;

/// Relies on `char::is_whitespace`: whether the character has the Unicode
/// `White_Space` property, a function of the character alone.
pub assume_specification[ char::is_whitespace ](c: char) -> (r: bool)
    ensures
        r == whitespace(c),
;

/// Relies on `char::is_alphabetic`: whether the character has the Unicode
/// `Alphabetic` property, a function of the character alone.
pub assume_specification[ char::is_alphabetic ](c: char) -> (r: bool)
    ensures
        r == alphabetic(c),
;

/// Relies on `char::is_alphanumeric`: whether the character is alphabetic or
/// a Unicode numeric character, a function of the character alone.
pub assume_specification[ char::is_alphanumeric ](c: char) -> (r: bool)
    ensures
        r == alphanumeric(c),
;

/// A character that may continue an identifier: alphanumeric or a hyphen.
pub open spec fn ident_char(c: char) -> bool {
    alphanumeric(c) || c == '-'
}

/// The number of consecutive identifier-continuation characters of `s`
/// starting at index `i`.
pub open spec fn ident_tail_len(s: Seq<char>, i: int) -> int
    decreases s.len() - i,
{
    if 0 <= i < s.len() && ident_char(s[i]) {
        1 + ident_tail_len(s, i + 1)
    } else {
        0
    }
}

// ---------------------------------------------------------------------------
// Parsed values, ghost level.
// ---------------------------------------------------------------------------

/// The ghost form of an element tree: a name, ordered attribute pairs and
/// ordered children.
pub struct SpecElement {
    pub name: Seq<char>,
    pub attributes: Seq<(Seq<char>, Seq<char>)>,
    pub children: Seq<SpecElement>,
}

/// The ghost form of a value a parser can produce.
pub enum SpecValue {
    Unit,
    Ch(char),
    Str(Seq<char>),
    Duo(Box<SpecValue>, Box<SpecValue>),
    List(Seq<SpecValue>),
    Elem(SpecElement),
}

/// Every item of `items` is a single character.
pub open spec fn all_chars(items: Seq<SpecValue>) -> bool {
    forall|i: int| 0 <= i < items.len() ==> (#[trigger] items[i]) is Ch
}

/// The characters carried by a sequence of `Ch` values.
pub open spec fn chars_of(items: Seq<SpecValue>) -> Seq<char> {
    Seq::new(items.len(), |i: int| items[i]->Ch_0)
}

/// Every item of `items` is a pair of two strings.
pub open spec fn all_string_pairs(items: Seq<SpecValue>) -> bool {
    forall|i: int| 0 <= i < items.len() ==> {
        let v = #[trigger] items[i];
        v is Duo && *v->Duo_0 is Str && *v->Duo_1 is Str
    }
}

/// The (key, value) string pairs carried by a sequence of `Duo(Str, Str)`
/// values.
pub open spec fn string_pairs_of(items: Seq<SpecValue>) -> Seq<(Seq<char>, Seq<char>)> {
    Seq::new(items.len(), |i: int| ((*items[i]->Duo_0)->Str_0, (*items[i]->Duo_1)->Str_0))
}

/// Every item of `items` is an element.
pub open spec fn all_elems(items: Seq<SpecValue>) -> bool {
    forall|i: int| 0 <= i < items.len() ==> (#[trigger] items[i]) is Elem
}

/// The elements carried by a sequence of `Elem` values.
pub open spec fn elems_of(items: Seq<SpecValue>) -> Seq<SpecElement> {
    Seq::new(items.len(), |i: int| items[i]->Elem_0)
}

// ---------------------------------------------------------------------------
// Predicates, transforms and value-dependent continuations, ghost level.
//
// The engine stores these as first-order descriptions rather than closures,
// so that the spec interpreter below can give each composed parser a meaning
// by recursion over its structure.
// ---------------------------------------------------------------------------

/// The ghost form of a predicate a `Filtered` parser can apply.
pub enum SpecPredFn {
    Whitespace,
    CharIs(char),
    CharIsNot(char),
    StrEq(Seq<char>),
}

/// Whether predicate `f` accepts value `v`.
pub open spec fn pred_holds(f: SpecPredFn, v: SpecValue) -> bool {
    match f {
        SpecPredFn::Whitespace => v is Ch && whitespace(v->Ch_0),
        SpecPredFn::CharIs(c0) => v is Ch && v->Ch_0 == c0,
        SpecPredFn::CharIsNot(c0) => v is Ch && v->Ch_0 != c0,
        SpecPredFn::StrEq(s0) => v is Str && v->Str_0 == s0,
    }
}

/// The ghost form of a transform a `Mapped` parser can apply.
pub enum SpecMapFn {
    Collect,
    First,
    Second,
    MakeElement,
    AttachTo(SpecElement),
}

/// The result of transform `f` on value `v`. A transform that does not fit
/// the shape of `v` leaves the value unchanged, which keeps mapping total and
/// never turns a success into a failure.
pub open spec fn apply_map(f: SpecMapFn, v: SpecValue) -> SpecValue {
    match f {
        SpecMapFn::Collect => {
            if v is List && all_chars(v->List_0) {
                SpecValue::Str(chars_of(v->List_0))
            } else {
                v
            }
        },
        SpecMapFn::First => if v is Duo {
            *v->Duo_0
        } else {
            v
        },
        SpecMapFn::Second => if v is Duo {
            *v->Duo_1
        } else {
            v
        },
        SpecMapFn::MakeElement => {
            if v is Duo && *v->Duo_0 is Str && *v->Duo_1 is List && all_string_pairs(
                (*v->Duo_1)->List_0,
            ) {
                SpecValue::Elem(
                    SpecElement {
                        name: (*v->Duo_0)->Str_0,
                        attributes: string_pairs_of((*v->Duo_1)->List_0),
                        children: seq![],
                    },
                )
            } else {
                v
            }
        },
        SpecMapFn::AttachTo(e) => {
            if v is List && all_elems(v->List_0) {
                SpecValue::Elem(
                    SpecElement {
                        name: e.name,
                        attributes: e.attributes,
                        children: elems_of(v->List_0),
                    },
                )
            } else {
                v
            }
        },
    }
}

/// The ghost form of a value-dependent continuation a `Chained` parser can
/// apply. `ParentTail` is the continuation of an open tag: parse the children
/// and the matching close tag of the element produced so far.
pub enum SpecChainFn {
    ParentTail,
}

// ---------------------------------------------------------------------------
// Parsers, ghost level.
// ---------------------------------------------------------------------------

/// The ghost form of a parser: the primitive matchers and the combinator
/// shapes of the engine.
pub enum SpecParser {
    AnyChar,
    Literal(Seq<char>),
    OneChar(char),
    Ident,
    Mapped(Box<SpecParser>, SpecMapFn),
    Filtered(Box<SpecParser>, SpecPredFn),
    Then(Box<SpecParser>, Box<SpecParser>),
    Repeat1(Box<SpecParser>),
    Repeat0(Box<SpecParser>),
    Choice(Box<SpecParser>, Box<SpecParser>),
    Chained(Box<SpecParser>, SpecChainFn),
}

/// Sequencing: both parsers in order, both values kept as a pair.
pub open spec fn spec_pair(a: SpecParser, b: SpecParser) -> SpecParser {
    SpecParser::Then(Box::new(a), Box::new(b))
}

/// Sequencing that keeps only the first value.
pub open spec fn spec_left(a: SpecParser, b: SpecParser) -> SpecParser {
    SpecParser::Mapped(Box::new(spec_pair(a, b)), SpecMapFn::First)
}

/// Sequencing that keeps only the second value.
pub open spec fn spec_right(a: SpecParser, b: SpecParser) -> SpecParser {
    SpecParser::Mapped(Box::new(spec_pair(a, b)), SpecMapFn::Second)
}

// ---------------------------------------------------------------------------
// The element grammar, ghost level.
// ---------------------------------------------------------------------------

/// A single whitespace character.
pub open spec fn spec_whitespace_char() -> SpecParser {
    SpecParser::Filtered(Box::new(SpecParser::AnyChar), SpecPredFn::Whitespace)
}

/// One or more whitespace characters.
pub open spec fn spec_space1() -> SpecParser {
    SpecParser::Repeat1(Box::new(spec_whitespace_char()))
}

/// Zero or more whitespace characters.
pub open spec fn spec_space0() -> SpecParser {
    SpecParser::Repeat0(Box::new(spec_whitespace_char()))
}

/// `p`, allowing incidental whitespace before and after it.
pub open spec fn spec_whitespace_wrap(p: SpecParser) -> SpecParser {
    spec_right(spec_space0(), spec_left(p, spec_space0()))
}

/// A double-quoted string: the characters between the quotes, verbatim.
pub open spec fn spec_quoted_string() -> SpecParser {
    SpecParser::Mapped(
        Box::new(
            spec_right(
                SpecParser::Literal("\""@),
                spec_left(
                    SpecParser::Repeat0(
                        Box::new(
                            SpecParser::Filtered(
                                Box::new(SpecParser::AnyChar),
                                SpecPredFn::CharIsNot('"'),
                            ),
                        ),
                    ),
                    SpecParser::Literal("\""@),
                ),
            ),
        ),
        SpecMapFn::Collect,
    )
}

/// One attribute: an identifier, `=`, and a quoted string.
pub open spec fn spec_attribute_pair() -> SpecParser {
    spec_pair(SpecParser::Ident, spec_right(SpecParser::Literal("="@), spec_quoted_string()))
}

/// Zero or more attributes, each preceded by mandatory whitespace.
pub open spec fn spec_attributes() -> SpecParser {
    SpecParser::Repeat0(Box::new(spec_right(spec_space1(), spec_attribute_pair())))
}

/// `<`, the element name, and its attributes.
pub open spec fn spec_element_start() -> SpecParser {
    spec_right(SpecParser::Literal("<"@), spec_pair(SpecParser::Ident, spec_attributes()))
}

/// An open tag, producing an element with no children yet.
pub open spec fn spec_open_element() -> SpecParser {
    spec_whitespace_wrap(
        SpecParser::Mapped(
            Box::new(
                spec_left(
                    spec_element_start(),
                    spec_left(spec_space0(), SpecParser::Literal(">"@)),
                ),
            ),
            SpecMapFn::MakeElement,
        ),
    )
}

/// A self-closing element, `< ... />`, with no children.
pub open spec fn spec_self_closing_element() -> SpecParser {
    spec_whitespace_wrap(
        SpecParser::Mapped(
            Box::new(
                spec_left(
                    spec_element_start(),
                    spec_left(spec_space0(), SpecParser::Literal("/>"@)),
                ),
            ),
            SpecMapFn::MakeElement,
        ),
    )
}

/// Ordered choice of a self-closing element first, a bare open tag second.
pub open spec fn spec_single_element() -> SpecParser {
    spec_whitespace_wrap(
        SpecParser::Choice(Box::new(spec_self_closing_element()), Box::new(spec_open_element())),
    )
}

/// A close tag whose identifier must equal `name` exactly.
pub open spec fn spec_close_element(name: Seq<char>) -> SpecParser {
    spec_whitespace_wrap(
        SpecParser::Filtered(
            Box::new(
                spec_right(
                    SpecParser::Literal("</"@),
                    spec_left(SpecParser::Ident, SpecParser::Literal(">"@)),
                ),
            ),
            SpecPredFn::StrEq(name),
        ),
    )
}

/// A parent element: an open tag chained with its children and close tag.
pub open spec fn spec_parent_element() -> SpecParser {
    spec_whitespace_wrap(
        SpecParser::Chained(Box::new(spec_open_element()), SpecChainFn::ParentTail),
    )
}

/// The grammar entry point: a self-closing element, or a parent element. A
/// bare open tag is accepted only as the head of a parent, so that a nested
/// child with its own children is parsed by the recursive rule rather than
/// swallowed as a childless tag.
pub open spec fn spec_element() -> SpecParser {
    SpecParser::Choice(Box::new(spec_self_closing_element()), Box::new(spec_parent_element()))
}

/// The continuation of an open tag that produced element `e`: zero or more
/// child elements, then a close tag named `e.name`, attached as the children
/// of `e`.
pub open spec fn spec_parent_tail(e: SpecElement) -> SpecParser {
    SpecParser::Mapped(
        Box::new(
            spec_left(
                SpecParser::Repeat0(Box::new(spec_element())),
                spec_close_element(e.name),
            ),
        ),
        SpecMapFn::AttachTo(e),
    )
}

// ---------------------------------------------------------------------------
// The spec interpreter.
// ---------------------------------------------------------------------------

/// The meaning of parser `p` on input view `s`, with `spent` tracking the
/// one in-place chaining allowance; [`spec_parse`] below, the meaning
/// proper, starts with the allowance available.
///
/// The interpreter is total. Repetition stops when an application succeeds
/// without consuming (the composed closures of an unchecked engine would
/// loop there forever; at such a stop, one-or-more keeps the single value
/// the demanded first application produced, zero-or-more keeps none), and
/// sequencing guards the remaining view against
/// having grown, a branch never taken since every result view is a suffix of
/// the input (`lemma_parse_view_suffix`). Value-dependent chaining runs its
/// continuation on the first stage's remainder whether or not that stage
/// consumed; a chain whose first stage consumed nothing spends the one
/// allowance, which keeps the recursion well-founded. The allowance can run
/// out only at a chain inside a continuation whose first stage succeeded
/// without consuming — and the only continuation, `spec_parent_tail`, chains
/// exclusively on `spec_open_element`, which consumes whenever it succeeds
/// (`lemma_open_element_consumes`), so the exhausted-allowance branch is
/// unreachable and `lemma_spent_irrelevant` discharges it.
pub open spec fn spec_parse_step(p: SpecParser, s: Seq<char>, spent: bool) -> Result<
    (SpecValue, Seq<char>),
    Seq<char>,
>
    decreases s.len(), (if spent { 0int } else { 1int }), p, 0int,
{
    match p {
        SpecParser::AnyChar => {
            if s.len() > 0 {
                Ok((SpecValue::Ch(s[0]), s.skip(1)))
            } else {
                Err(s)
            }
        },
        SpecParser::Literal(l) => {
            if l.is_prefix_of(s) {
                Ok((SpecValue::Unit, s.skip(l.len() as int)))
            } else {
                Err(s)
            }
        },
        SpecParser::OneChar(c) => {
            if s.len() > 0 && s[0] == c {
                Ok((SpecValue::Unit, s.skip(1)))
            } else {
                Err(s)
            }
        },
        SpecParser::Ident => {
            if s.len() > 0 && alphabetic(s[0]) {
                let n = 1 + ident_tail_len(s, 1);
                Ok((SpecValue::Str(s.take(n)), s.skip(n)))
            } else {
                Err(s)
            }
        },
        SpecParser::Mapped(q, f) => match spec_parse_step(*q, s, spent) {
            Ok((v, rest)) => Ok((apply_map(f, v), rest)),
            Err(e) => Err(e),
        },
        SpecParser::Filtered(q, f) => match spec_parse_step(*q, s, spent) {
            Ok((v, rest)) => if pred_holds(f, v) {
                Ok((v, rest))
            } else {
                Err(s)
            },
            Err(_) => Err(s),
        },
        SpecParser::Then(a, b) => match spec_parse_step(*a, s, spent) {
            Ok((va, ra)) => if ra.len() <= s.len() {
                match spec_parse_step(*b, ra, if ra.len() < s.len() { false } else { spent }) {
                    Ok((vb, rb)) => Ok(
                        (SpecValue::Duo(Box::new(va), Box::new(vb)), rb),
                    ),
                    Err(e) => Err(e),
                }
            } else {
                Err(s)
            },
            Err(e) => Err(e),
        },
        SpecParser::Repeat1(q) => match spec_parse_step(*q, s, spent) {
            Ok((v, rest)) => if rest.len() < s.len() {
                let (vs, fin) = spec_parse_many_step(*q, rest, false);
                Ok((SpecValue::List(seq![v] + vs), fin))
            } else {
                Ok((SpecValue::List(seq![v]), rest))
            },
            Err(_) => Err(s),
        },
        SpecParser::Repeat0(q) => {
            let (vs, fin) = spec_parse_many_step(*q, s, spent);
            Ok((SpecValue::List(vs), fin))
        },
        SpecParser::Choice(a, b) => match spec_parse_step(*a, s, spent) {
            Ok(r) => Ok(r),
            Err(_) => spec_parse_step(*b, s, spent),
        },
        SpecParser::Chained(q, c) => match spec_parse_step(*q, s, spent) {
            Ok((v, rest)) => if rest.len() < s.len() {
                match c {
                    SpecChainFn::ParentTail => match v {
                        SpecValue::Elem(e) => spec_parse_step(spec_parent_tail(e), rest, false),
                        _ => Err(rest),
                    },
                }
            } else if rest.len() == s.len() && !spent {
                match c {
                    SpecChainFn::ParentTail => match v {
                        SpecValue::Elem(e) => spec_parse_step(spec_parent_tail(e), rest, true),
                        _ => Err(rest),
                    },
                }
            } else {
                Err(s)
            },
            Err(e) => Err(e),
        },
    }
}

/// As many successful, consuming applications of `p` as the input admits:
/// the collected values in order and the remaining view. Never fails.
pub open spec fn spec_parse_many_step(p: SpecParser, s: Seq<char>, spent: bool) -> (
    Seq<SpecValue>,
    Seq<char>,
)
    decreases s.len(), (if spent { 0int } else { 1int }), p, 1int,
{
    match spec_parse_step(p, s, spent) {
        Ok((v, rest)) => if rest.len() < s.len() {
            let (vs, fin) = spec_parse_many_step(p, rest, false);
            (seq![v] + vs, fin)
        } else {
            (seq![], s)
        },
        Err(_) => (seq![], s),
    }
}

/// The meaning of parser `p` on input view `s`: a value and the remaining
/// view, or a failure carrying a view.
pub open spec fn spec_parse(p: SpecParser, s: Seq<char>) -> Result<
    (SpecValue, Seq<char>),
    Seq<char>,
> {
    spec_parse_step(p, s, false)
}

/// The meaning of repetition over `p` on input view `s`.
pub open spec fn spec_parse_many(p: SpecParser, s: Seq<char>) -> (Seq<SpecValue>, Seq<char>) {
    spec_parse_many_step(p, s, false)
}

// ---------------------------------------------------------------------------
// Views are windows: every result view is a suffix of the input view.
// ---------------------------------------------------------------------------

/// A suffix of a suffix is a suffix.
pub proof fn lemma_suffix_trans(a: Seq<char>, b: Seq<char>, c: Seq<char>)
    requires
        a.is_suffix_of(b),
        b.is_suffix_of(c),
    ensures
        a.is_suffix_of(c),
{
    assert(a =~= c.subrange(c.len() - a.len(), c.len() as int));
}

/// Every view is a suffix of itself.
pub proof fn lemma_suffix_refl(s: Seq<char>)
    ensures
        s.is_suffix_of(s),
{
    assert(s =~= s.subrange(0, s.len() as int));
}

/// Dropping a prefix leaves a suffix.
pub proof fn lemma_skip_suffix(s: Seq<char>, n: int)
    requires
        0 <= n <= s.len(),
    ensures
        s.skip(n).is_suffix_of(s),
{
    assert(s.skip(n) =~= s.subrange(s.len() - s.skip(n).len(), s.len() as int));
}

/// The identifier-continuation run starting inside `s` ends inside `s`.
proof fn lemma_ident_tail_bound(s: Seq<char>, i: int)
    requires
        0 <= i <= s.len(),
    ensures
        0 <= ident_tail_len(s, i),
        i + ident_tail_len(s, i) <= s.len(),
    decreases s.len() - i,
{
    if i < s.len() && ident_char(s[i]) {
        lemma_ident_tail_bound(s, i + 1);
    }
}

/// Whatever a parser returns, the view it carries — remainder or failure —
/// is a suffix of the view it was run on: views are windows of one source.
pub proof fn lemma_parse_view_suffix(p: SpecParser, s: Seq<char>, spent: bool)
    ensures
        match spec_parse_step(p, s, spent) {
            Ok((v, rest)) => rest.is_suffix_of(s),
            Err(e) => e.is_suffix_of(s),
        },
    decreases s.len(), (if spent { 0int } else { 1int }), p, 2int,
{
    lemma_suffix_refl(s);
    match p {
        SpecParser::AnyChar => {
            if s.len() > 0 {
                lemma_skip_suffix(s, 1);
            }
        },
        SpecParser::Literal(l) => {
            if l.is_prefix_of(s) {
                lemma_skip_suffix(s, l.len() as int);
            }
        },
        SpecParser::OneChar(c) => {
            if s.len() > 0 && s[0] == c {
                lemma_skip_suffix(s, 1);
            }
        },
        SpecParser::Ident => {
            if s.len() > 0 && alphabetic(s[0]) {
                lemma_ident_tail_bound(s, 1);
                lemma_skip_suffix(s, 1 + ident_tail_len(s, 1));
            }
        },
        SpecParser::Mapped(q, _f) => {
            lemma_parse_view_suffix(*q, s, spent);
        },
        SpecParser::Filtered(q, _f) => {
            lemma_parse_view_suffix(*q, s, spent);
        },
        SpecParser::Then(a, b) => {
            lemma_parse_view_suffix(*a, s, spent);
            match spec_parse_step(*a, s, spent) {
                Ok((va, ra)) => {
                    if ra.len() <= s.len() {
                        let spent2 = if ra.len() < s.len() {
                            false
                        } else {
                            spent
                        };
                        lemma_parse_view_suffix(*b, ra, spent2);
                        match spec_parse_step(*b, ra, spent2) {
                            Ok((vb, rb)) => {
                                lemma_suffix_trans(rb, ra, s);
                            },
                            Err(e) => {
                                lemma_suffix_trans(e, ra, s);
                            },
                        }
                    }
                },
                Err(_) => {},
            }
        },
        SpecParser::Repeat1(q) => {
            lemma_parse_view_suffix(*q, s, spent);
            match spec_parse_step(*q, s, spent) {
                Ok((v, rest)) => {
                    if rest.len() < s.len() {
                        lemma_parse_many_view_suffix(*q, rest, false);
                        let (vs, fin) = spec_parse_many_step(*q, rest, false);
                        lemma_suffix_trans(fin, rest, s);
                    }
                },
                Err(_) => {},
            }
        },
        SpecParser::Repeat0(q) => {
            lemma_parse_many_view_suffix(*q, s, spent);
        },
        SpecParser::Choice(a, b) => {
            lemma_parse_view_suffix(*a, s, spent);
            if spec_parse_step(*a, s, spent) is Err {
                lemma_parse_view_suffix(*b, s, spent);
            }
        },
        SpecParser::Chained(q, c) => {
            lemma_parse_view_suffix(*q, s, spent);
            match spec_parse_step(*q, s, spent) {
                Ok((v, rest)) => {
                    if rest.len() < s.len() {
                        match v {
                            SpecValue::Elem(e) => {
                                lemma_parse_view_suffix(spec_parent_tail(e), rest, false);
                                match spec_parse_step(spec_parent_tail(e), rest, false) {
                                    Ok((w, fin)) => {
                                        lemma_suffix_trans(fin, rest, s);
                                    },
                                    Err(e2) => {
                                        lemma_suffix_trans(e2, rest, s);
                                    },
                                }
                            },
                            _ => {},
                        }
                    } else if rest.len() == s.len() && !spent {
                        match v {
                            SpecValue::Elem(e) => {
                                lemma_parse_view_suffix(spec_parent_tail(e), rest, true);
                                match spec_parse_step(spec_parent_tail(e), rest, true) {
                                    Ok((w, fin)) => {
                                        lemma_suffix_trans(fin, rest, s);
                                    },
                                    Err(e2) => {
                                        lemma_suffix_trans(e2, rest, s);
                                    },
                                }
                            },
                            _ => {},
                        }
                    }
                },
                Err(_) => {},
            }
        },
    }
}

/// The remaining view of a repetition is a suffix of the view it started on.
pub proof fn lemma_parse_many_view_suffix(p: SpecParser, s: Seq<char>, spent: bool)
    ensures
        spec_parse_many_step(p, s, spent).1.is_suffix_of(s),
    decreases s.len(), (if spent { 0int } else { 1int }), p, 3int,
{
    lemma_suffix_refl(s);
    lemma_parse_view_suffix(p, s, spent);
    match spec_parse_step(p, s, spent) {
        Ok((v, rest)) => {
            if rest.len() < s.len() {
                lemma_parse_many_view_suffix(p, rest, false);
                lemma_suffix_trans(spec_parse_many_step(p, rest, false).1, rest, s);
            }
        },
        Err(_) => {},
    }
}

// ---------------------------------------------------------------------------
// Parsers that consume whenever they succeed.
// ---------------------------------------------------------------------------

/// Whenever `p` succeeds, it has consumed at least one character.
pub open spec fn consumes_on_success(p: SpecParser) -> bool {
    forall|s: Seq<char>, spent: bool|
        match #[trigger] spec_parse_step(p, s, spent) {
            Ok((v, rest)) => rest.len() < s.len(),
            Err(_) => true,
        }
}

/// A non-empty literal consumes whenever it succeeds.
pub proof fn lemma_literal_consumes(l: Seq<char>)
    requires
        l.len() > 0,
    ensures
        consumes_on_success(SpecParser::Literal(l)),
{
}

/// A sequence whose first stage consumes, consumes.
pub proof fn lemma_then_consumes_left(a: SpecParser, b: SpecParser)
    requires
        consumes_on_success(a),
    ensures
        consumes_on_success(SpecParser::Then(Box::new(a), Box::new(b))),
{
    let p = SpecParser::Then(Box::new(a), Box::new(b));
    assert forall|s: Seq<char>, spent: bool|
        match #[trigger] spec_parse_step(p, s, spent) {
            Ok((v, rest)) => rest.len() < s.len(),
            Err(_) => true,
        } by {
        match spec_parse_step(a, s, spent) {
            Ok((va, ra)) => {
                if ra.len() <= s.len() {
                    let spent2 = if ra.len() < s.len() {
                        false
                    } else {
                        spent
                    };
                    lemma_parse_view_suffix(b, ra, spent2);
                }
            },
            Err(_) => {},
        }
    }
}

/// A sequence whose second stage consumes, consumes.
pub proof fn lemma_then_consumes_right(a: SpecParser, b: SpecParser)
    requires
        consumes_on_success(b),
    ensures
        consumes_on_success(SpecParser::Then(Box::new(a), Box::new(b))),
{
    let p = SpecParser::Then(Box::new(a), Box::new(b));
    assert forall|s: Seq<char>, spent: bool|
        match #[trigger] spec_parse_step(p, s, spent) {
            Ok((v, rest)) => rest.len() < s.len(),
            Err(_) => true,
        } by {
        match spec_parse_step(a, s, spent) {
            Ok((va, ra)) => {
                if ra.len() <= s.len() {
                    let spent2 = if ra.len() < s.len() {
                        false
                    } else {
                        spent
                    };
                    match spec_parse_step(b, ra, spent2) {
                        Ok((vb, rb)) => {
                            assert(rb.len() < ra.len());
                        },
                        Err(_) => {},
                    }
                }
            },
            Err(_) => {},
        }
    }
}

/// Mapping does not change what is consumed.
pub proof fn lemma_mapped_consumes(q: SpecParser, f: SpecMapFn)
    requires
        consumes_on_success(q),
    ensures
        consumes_on_success(SpecParser::Mapped(Box::new(q), f)),
{
    let p = SpecParser::Mapped(Box::new(q), f);
    assert forall|s: Seq<char>, spent: bool|
        match #[trigger] spec_parse_step(p, s, spent) {
            Ok((v, rest)) => rest.len() < s.len(),
            Err(_) => true,
        } by {
        match spec_parse_step(q, s, spent) {
            Ok((v, rest)) => {},
            Err(_) => {},
        }
    }
}

/// Wrapping in incidental whitespace keeps a consuming parser consuming.
pub proof fn lemma_whitespace_wrap_consumes(p: SpecParser)
    requires
        consumes_on_success(p),
    ensures
        consumes_on_success(spec_whitespace_wrap(p)),
{
    let inner = SpecParser::Then(Box::new(p), Box::new(spec_space0()));
    lemma_then_consumes_left(p, spec_space0());
    lemma_mapped_consumes(inner, SpecMapFn::First);
    let kept = SpecParser::Mapped(Box::new(inner), SpecMapFn::First);
    lemma_then_consumes_right(spec_space0(), kept);
    let outer = SpecParser::Then(Box::new(spec_space0()), Box::new(kept));
    lemma_mapped_consumes(outer, SpecMapFn::Second);
}

/// An open tag consumes whenever it succeeds: its `<` is a non-empty
/// literal, and every later stage only moves the view forward.
pub proof fn lemma_open_element_consumes()
    ensures
        consumes_on_success(spec_open_element()),
{
    reveal_strlit("<");
    lemma_literal_consumes("<"@);
    let tag_body = spec_pair(SpecParser::Ident, spec_attributes());
    lemma_then_consumes_left(SpecParser::Literal("<"@), tag_body);
    lemma_mapped_consumes(
        SpecParser::Then(Box::new(SpecParser::Literal("<"@)), Box::new(tag_body)),
        SpecMapFn::Second,
    );
    let start = spec_element_start();
    assert(consumes_on_success(start));
    let closer = spec_left(spec_space0(), SpecParser::Literal(">"@));
    lemma_then_consumes_left(start, closer);
    lemma_mapped_consumes(
        SpecParser::Then(Box::new(start), Box::new(closer)),
        SpecMapFn::First,
    );
    let tagged = spec_left(start, closer);
    assert(consumes_on_success(tagged));
    lemma_mapped_consumes(tagged, SpecMapFn::MakeElement);
    lemma_whitespace_wrap_consumes(
        SpecParser::Mapped(Box::new(tagged), SpecMapFn::MakeElement),
    );
}

// ---------------------------------------------------------------------------
// The chaining allowance is never missed: the one continuation chains only
// on open tags, which consume.
// ---------------------------------------------------------------------------

/// Every chaining node inside `p` has `spec_open_element` as its first
/// stage. This holds of the continuation parsers the engine builds, and
/// makes the exhausted-allowance branch of the interpreter unreachable.
pub open spec fn chain_heads_are_open_tags(p: SpecParser) -> bool
    decreases p,
{
    match p {
        SpecParser::AnyChar => true,
        SpecParser::Literal(_) => true,
        SpecParser::OneChar(_) => true,
        SpecParser::Ident => true,
        SpecParser::Mapped(q, _) => chain_heads_are_open_tags(*q),
        SpecParser::Filtered(q, _) => chain_heads_are_open_tags(*q),
        SpecParser::Then(a, b) => chain_heads_are_open_tags(*a) && chain_heads_are_open_tags(*b),
        SpecParser::Repeat1(q) => chain_heads_are_open_tags(*q),
        SpecParser::Repeat0(q) => chain_heads_are_open_tags(*q),
        SpecParser::Choice(a, b) => chain_heads_are_open_tags(*a) && chain_heads_are_open_tags(
            *b,
        ),
        SpecParser::Chained(q, _) => *q == spec_open_element() && chain_heads_are_open_tags(*q),
    }
}

/// Wrapping in incidental whitespace neither adds nor hides chaining nodes.
proof fn lemma_whitespace_wrap_chain_heads(p: SpecParser)
    ensures
        chain_heads_are_open_tags(spec_whitespace_wrap(p)) == chain_heads_are_open_tags(p),
{
    reveal_with_fuel(chain_heads_are_open_tags, 8);
}

/// The continuation of an open tag chains only on open tags.
pub proof fn lemma_parent_tail_chain_heads(e: SpecElement)
    ensures
        chain_heads_are_open_tags(spec_parent_tail(e)),
{
    reveal_with_fuel(chain_heads_are_open_tags, 12);
    assert(chain_heads_are_open_tags(spec_whitespace_char()));
    assert(chain_heads_are_open_tags(spec_space0()));
    assert(chain_heads_are_open_tags(spec_space1()));
    assert(chain_heads_are_open_tags(spec_quoted_string()));
    assert(chain_heads_are_open_tags(spec_attribute_pair()));
    assert(chain_heads_are_open_tags(spec_attributes()));
    assert(chain_heads_are_open_tags(spec_element_start()));
    let open_core = SpecParser::Mapped(
        Box::new(
            spec_left(
                spec_element_start(),
                spec_left(spec_space0(), SpecParser::Literal(">"@)),
            ),
        ),
        SpecMapFn::MakeElement,
    );
    assert(chain_heads_are_open_tags(open_core));
    lemma_whitespace_wrap_chain_heads(open_core);
    assert(chain_heads_are_open_tags(spec_open_element()));
    let self_core = SpecParser::Mapped(
        Box::new(
            spec_left(
                spec_element_start(),
                spec_left(spec_space0(), SpecParser::Literal("/>"@)),
            ),
        ),
        SpecMapFn::MakeElement,
    );
    assert(chain_heads_are_open_tags(self_core));
    lemma_whitespace_wrap_chain_heads(self_core);
    assert(chain_heads_are_open_tags(spec_self_closing_element()));
    let parent_core = SpecParser::Chained(
        Box::new(spec_open_element()),
        SpecChainFn::ParentTail,
    );
    assert(chain_heads_are_open_tags(parent_core));
    lemma_whitespace_wrap_chain_heads(parent_core);
    assert(chain_heads_are_open_tags(spec_parent_element()));
    assert(chain_heads_are_open_tags(spec_element()));
    lemma_whitespace_wrap_chain_heads(
        SpecParser::Filtered(
            Box::new(
                spec_right(
                    SpecParser::Literal("</"@),
                    spec_left(SpecParser::Ident, SpecParser::Literal(">"@)),
                ),
            ),
            SpecPredFn::StrEq(e.name),
        ),
    );
    assert(chain_heads_are_open_tags(spec_close_element(e.name)));
}

/// For a parser whose chaining nodes all head with an open tag, the
/// allowance makes no difference: such a chain consumes before it ever needs
/// a second in-place continuation.
pub proof fn lemma_spent_irrelevant(p: SpecParser, s: Seq<char>)
    requires
        chain_heads_are_open_tags(p),
    ensures
        spec_parse_step(p, s, true) == spec_parse_step(p, s, false),
    decreases s.len(), p, 0int,
{
    match p {
        SpecParser::AnyChar => {},
        SpecParser::Literal(_) => {},
        SpecParser::OneChar(_) => {},
        SpecParser::Ident => {},
        SpecParser::Mapped(q, _f) => {
            lemma_spent_irrelevant(*q, s);
        },
        SpecParser::Filtered(q, _f) => {
            lemma_spent_irrelevant(*q, s);
        },
        SpecParser::Then(a, b) => {
            lemma_spent_irrelevant(*a, s);
            match spec_parse_step(*a, s, false) {
                Ok((va, ra)) => {
                    if ra.len() == s.len() {
                        lemma_spent_irrelevant(*b, ra);
                    }
                },
                Err(_) => {},
            }
        },
        SpecParser::Repeat1(q) => {
            lemma_spent_irrelevant(*q, s);
        },
        SpecParser::Repeat0(q) => {
            lemma_spent_irrelevant_many(*q, s);
        },
        SpecParser::Choice(a, b) => {
            lemma_spent_irrelevant(*a, s);
            lemma_spent_irrelevant(*b, s);
        },
        SpecParser::Chained(q, _c) => {
            lemma_spent_irrelevant(*q, s);
            lemma_open_element_consumes();
            match spec_parse_step(*q, s, false) {
                Ok((v, rest)) => {
                    assert(rest.len() < s.len());
                },
                Err(_) => {},
            }
        },
    }
}

/// The repetition form of `lemma_spent_irrelevant`.
pub proof fn lemma_spent_irrelevant_many(p: SpecParser, s: Seq<char>)
    requires
        chain_heads_are_open_tags(p),
    ensures
        spec_parse_many_step(p, s, true) == spec_parse_many_step(p, s, false),
    decreases s.len(), p, 1int,
{
    lemma_spent_irrelevant(p, s);
}

} // verus!
