//! The element grammar: the `Element` tree the grammar produces, and the
//! grammar rules, each a parser value whose view is the corresponding ghost
//! rule of [`crate::model`].

use vstd::prelude::*;

use crate::combinators::{and_then, either, left, one_or_more, pair, pred, right,
    zero_or_more};
use crate::model::{
    spec_attribute_pair, spec_attributes, spec_close_element, spec_element, spec_element_start,
    spec_open_element, spec_parent_element, spec_parent_tail, spec_quoted_string,
    spec_self_closing_element, spec_single_element, spec_space0, spec_space1,
    spec_whitespace_char, spec_whitespace_wrap, SpecElement, SpecParser,
};
use crate::parser::{BoxedParser, ChainFn, MapFn, Parser, PredFn};

verus! {

/// An element of the simplified XML-like syntax: a name, its attributes in
/// source order (duplicate keys permitted), and its child elements in source
/// order.
#[derive(Debug, PartialEq)]
pub struct Element {
    pub name: Vec<char>,
    pub attributes: Vec<(Vec<char>, Vec<char>)>,
    pub children: Vec<Element>,
}

/// The ghost form of an attribute list: each pair of character vectors as a
/// pair of character sequences.
pub open spec fn attrs_view(s: Seq<(Vec<char>, Vec<char>)>) -> Seq<(Seq<char>, Seq<char>)> {
    Seq::new(s.len(), |i: int| (s[i].0@, s[i].1@))
}

/// The ghost form of `e`.
pub open spec fn elem_view(e: Element) -> SpecElement
    decreases e,
{
    SpecElement {
        name: e.name@,
        attributes: attrs_view(e.attributes@),
        children: elems_view(e.children@),
    }
}

/// The ghost forms of a sequence of elements, in order.
pub open spec fn elems_view(s: Seq<Element>) -> Seq<SpecElement>
    decreases s,
{
    if s.len() == 0 {
        Seq::empty()
    } else {
        seq![elem_view(s[0])] + elems_view(s.drop_first())
    }
}

/// The ghost forms of a sequence of elements are as many as the elements.
pub broadcast proof fn lemma_elems_view_len(s: Seq<Element>)
    ensures
        (#[trigger] elems_view(s)).len() == s.len(),
    decreases s,
{
    if s.len() > 0 {
        lemma_elems_view_len(s.drop_first());
    }
}

/// The ghost forms of a sequence of elements correspond element by element.
pub broadcast proof fn lemma_elems_view_index(s: Seq<Element>, i: int)
    requires
        0 <= i < s.len(),
    ensures
        #[trigger] elems_view(s)[i] == elem_view(s[i]),
    decreases s,
{
    lemma_elems_view_len(s.drop_first());
    if i > 0 {
        lemma_elems_view_index(s.drop_first(), i - 1);
    }
}

impl View for Element {
    type V = SpecElement;

    open spec fn view(&self) -> SpecElement {
        elem_view(*self)
    }
}

/// A copy of a character vector, equal to the original in view.
#[verifier::loop_isolation(false)]
pub(crate) fn clone_chars(s: &Vec<char>) -> (r: Vec<char>)
    ensures
        r@ == s@,
{
    let mut r: Vec<char> = Vec::new();
    let mut i: usize = 0;
    while i < s.len()
        invariant
            i <= s@.len(),
            r@ == s@.subrange(0, i as int),
        decreases s@.len() - i,
    {
        r.push(s[i]);
        i = i + 1;
        proof {
            assert(r@ =~= s@.subrange(0, i as int));
        }
    }
    proof {
        assert(r@ =~= s@);
    }
    r
}

/// A copy of an attribute list, equal to the original pair by pair in view.
#[verifier::loop_isolation(false)]
pub(crate) fn clone_attrs(a: &Vec<(Vec<char>, Vec<char>)>) -> (r: Vec<(Vec<char>, Vec<char>)>)
    ensures
        r@.len() == a@.len(),
        forall|i: int|
            0 <= i < a@.len() ==> (#[trigger] r@[i]).0@ == a@[i].0@ && r@[i].1@ == a@[i].1@,
{
    let mut r: Vec<(Vec<char>, Vec<char>)> = Vec::new();
    let mut i: usize = 0;
    while i < a.len()
        invariant
            i <= a@.len(),
            r@.len() == i,
            forall|k: int|
                0 <= k < i ==> (#[trigger] r@[k]).0@ == a@[k].0@ && r@[k].1@ == a@[k].1@,
        decreases a@.len() - i,
    {
        r.push((clone_chars(&a[i].0), clone_chars(&a[i].1)));
        i = i + 1;
    }
    r
}

/// A copy of an element tree, equal to the original in view.
#[verifier::loop_isolation(false)]
pub(crate) fn clone_element(e: &Element) -> (r: Element)
    ensures
        r@ == e@,
    decreases *e,
{
    broadcast use lemma_elems_view_len, lemma_elems_view_index;

    let mut children: Vec<Element> = Vec::new();
    let mut i: usize = 0;
    while i < e.children.len()
        invariant
            i <= e.children@.len(),
            children@.len() == i,
            forall|k: int| 0 <= k < i ==> (#[trigger] children@[k])@ == elem_view(e.children[k]),
        decreases e.children@.len() - i,
    {
        children.push(clone_element(&e.children[i]));
        i = i + 1;
    }
    let ghost cs = children@;
    let r = Element { name: clone_chars(&e.name), attributes: clone_attrs(&e.attributes), children };
    proof {
        assert(r.children@ == cs);
        assert(r@.attributes =~= e@.attributes);
        assert forall|k: int| 0 <= k < cs.len() implies elems_view(cs)[k] == elems_view(
            e.children@,
        )[k] by {
            assert(elems_view(cs)[k] == elem_view(cs[k]));
            assert(elems_view(e.children@)[k] == elem_view(e.children@[k]));
        }
        assert(cs.len() == e.children@.len());
        assert(elems_view(cs).len() == cs.len());
        assert(elems_view(e.children@).len() == e.children@.len());
        assert(r@.children == elems_view(cs));
        assert(e@.children == elems_view(e.children@));
        assert(elems_view(cs) =~= elems_view(e.children@));
        assert(r@ =~= e@);
    }
    r
}

/// The characters of `s`, in order.
fn chars_of_str(s: &str) -> (r: Vec<char>)
    ensures
        r@ == s@,
{
    broadcast use vstd::string::axiom_spec_iter, vstd::string::next_postcondition;

    let mut out: Vec<char> = Vec::new();
    let mut it = s.chars();
    loop
        invariant_except_break
            vstd::std_specs::iter::IteratorSpec::obeys_prophetic_iter_laws(&it),
            out@ + vstd::std_specs::iter::IteratorSpec::remaining(&it) == s@,
        ensures
            out@ == s@,
        decreases s@.len() - out@.len(),
    {
        match it.next() {
            Some(c) => {
                out.push(c);
                proof {
                    assert(out@ + vstd::std_specs::iter::IteratorSpec::remaining(&it) =~= s@);
                }
            },
            None => {
                proof {
                    assert(out@ =~= s@);
                }
                break;
            },
        }
    }
    out
}

// ---------------------------------------------------------------------------
// Primitive matchers.
// ---------------------------------------------------------------------------

/// Consumes exactly one character; fails on empty input.
pub fn any_char() -> (p: Parser)
    ensures
        p@ == SpecParser::AnyChar,
{
    Parser::AnyChar
}

/// Consumes `expected` exactly where the input starts with it; fails
/// otherwise, leaving the input untouched.
pub fn match_literal(expected: &str) -> (p: Parser)
    ensures
        p@ == SpecParser::Literal(expected@),
{
    Parser::Literal(chars_of_str(expected))
}

/// Consumes exactly the character `ch`; fails otherwise.
pub fn match_char(ch: char) -> (p: Parser)
    ensures
        p@ == SpecParser::OneChar(ch),
{
    Parser::OneChar(ch)
}

/// One alphabetic character, then zero or more alphanumeric-or-hyphen
/// characters; fails, consuming nothing, where the first character is not
/// alphabetic.
pub fn identifier() -> (p: Parser)
    ensures
        p@ == SpecParser::Ident,
{
    Parser::Ident
}

// ---------------------------------------------------------------------------
// Whitespace and strings.
// ---------------------------------------------------------------------------

/// A single whitespace character.
pub fn whitespace_char() -> (p: Parser)
    ensures
        p@ == spec_whitespace_char(),
{
    pred(any_char(), PredFn::Whitespace)
}

/// One or more whitespace characters.
pub fn space1() -> (p: Parser)
    ensures
        p@ == spec_space1(),
{
    one_or_more(whitespace_char())
}

/// Zero or more whitespace characters.
pub fn space0() -> (p: Parser)
    ensures
        p@ == spec_space0(),
{
    zero_or_more(whitespace_char())
}

/// `"`, zero or more non-`"` characters, `"`; the characters between the
/// quotes become the string value verbatim.
pub fn quoted_string() -> (p: Parser)
    ensures
        p@ == spec_quoted_string(),
{
    crate::combinators::map(
        right(
            match_literal("\""),
            left(
                zero_or_more(pred(any_char(), PredFn::CharIsNot('"'))),
                match_literal("\""),
            ),
        ),
        MapFn::Collect,
    )
}

/// The quoted-string rule once more, phrased with the chainable methods; it
/// recognises exactly what [`quoted_string`] recognises.
pub fn quoted_string1() -> (p: BoxedParser)
    ensures
        p@ == spec_quoted_string(),
{
    right(
        match_literal("\""),
        left(
            zero_or_more(pred(any_char(), PredFn::CharIsNot('"'))),
            match_literal("\""),
        ),
    ).map(MapFn::Collect)
}

// ---------------------------------------------------------------------------
// The element grammar.
// ---------------------------------------------------------------------------

/// `parser`, allowing incidental whitespace before and after it.
pub fn whitespace_wrap(parser: Parser) -> (p: Parser)
    ensures
        p@ == spec_whitespace_wrap(parser@),
{
    right(space0(), left(parser, space0()))
}

/// One attribute: an identifier, `=`, and a quoted string, as a (name,
/// value) pair.
pub fn attribute_pair() -> (p: Parser)
    ensures
        p@ == spec_attribute_pair(),
{
    pair(identifier(), right(match_literal("="), quoted_string()))
}

/// Zero or more attributes, each preceded by mandatory whitespace; absence
/// of further whitespace ends the list.
pub fn attributes() -> (p: Parser)
    ensures
        p@ == spec_attributes(),
{
    zero_or_more(right(space1(), attribute_pair()))
}

/// `<`, the element name, and its attributes.
pub fn element_start() -> (p: Parser)
    ensures
        p@ == spec_element_start(),
{
    right(match_literal("<"), pair(identifier(), attributes()))
}

/// An open tag: `element_start`, optional whitespace, `>`; produces an
/// element with no children.
pub fn open_element() -> (p: Parser)
    ensures
        p@ == spec_open_element(),
{
    whitespace_wrap(
        crate::combinators::map(
            left(element_start(), left(space0(), match_literal(">"))),
            MapFn::MakeElement,
        ),
    )
}

/// A self-closing element: `element_start`, optional whitespace, `/>`;
/// produces an element with no children.
pub fn self_closing_element() -> (p: Parser)
    ensures
        p@ == spec_self_closing_element(),
{
    whitespace_wrap(
        crate::combinators::map(
            left(element_start(), left(space0(), match_literal("/>"))),
            MapFn::MakeElement,
        ),
    )
}

/// Ordered choice of a self-closing element first, a bare open tag second.
pub fn single_element() -> (p: Parser)
    ensures
        p@ == spec_single_element(),
{
    whitespace_wrap(either(self_closing_element(), open_element()))
}

/// A close tag, `</name>`, filtered to require its identifier to equal
/// `expected_name` exactly; the filter failing rewinds to the original view.
pub fn close_element(expected_name: Vec<char>) -> (p: Parser)
    ensures
        p@ == spec_close_element(expected_name@),
{
    whitespace_wrap(
        pred(
            right(match_literal("</"), left(identifier(), match_literal(">"))),
            PredFn::StrEq(expected_name),
        ),
    )
}

/// A parent element: an open tag, then — by value-dependent chaining — its
/// children and a close tag matching the open name, assembled into one
/// element.
pub fn parent_element() -> (p: Parser)
    ensures
        p@ == spec_parent_element(),
{
    whitespace_wrap(and_then(open_element(), ChainFn::ParentTail))
}

/// The continuation of an open tag that produced `e`: zero or more child
/// elements, then a close tag named after `e`, attached as the children of
/// `e`.
pub(crate) fn parent_tail(e: Element) -> (p: Parser)
    ensures
        p@ == spec_parent_tail(e@),
{
    let name = clone_chars(&e.name);
    crate::combinators::map(
        left(zero_or_more(element()), close_element(name)),
        MapFn::AttachTo(e),
    )
}

/// The grammar entry point: a self-closing element, or a parent element. A
/// bare open tag is accepted only as the head of a parent, so a nested child
/// with children of its own is parsed by the recursive rule.
pub fn element() -> (p: Parser)
    ensures
        p@ == spec_element(),
{
    either(self_closing_element(), parent_element())
}

} // verus!
