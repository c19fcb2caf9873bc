//! The parser type and its interpreter.
//!
//! A parser is a first-order description: the primitive matchers and the
//! combinator shapes, with predicates, transforms and continuations stored as
//! small description values rather than closures, so that every composed
//! parser has a ghost mirror and a meaning given by
//! [`crate::model::spec_parse`]. The interpreter below is verified to return
//! exactly that meaning, which makes parsing deterministic and every failure
//! a view into the original input.

use vstd::prelude::*;

use crate::model::{
    all_chars, all_elems, all_string_pairs, apply_map, chars_of, elems_of, ident_char,
    ident_tail_len, pred_holds, spec_parent_tail, spec_parse, spec_parse_many_step, spec_parse_step,
    string_pairs_of,
    SpecChainFn, SpecMapFn, SpecParser, SpecPredFn, SpecValue,
};
use crate::xml::{clone_chars, elem_view, parent_tail, Element};

verus! {

// ---------------------------------------------------------------------------
// Descriptions of predicates, transforms and continuations.
// ---------------------------------------------------------------------------

/// A predicate over parsed values, applied by a filtering parser.
pub enum PredFn {
    /// The value is a whitespace character.
    Whitespace,
    /// The value is exactly this character.
    CharIs(char),
    /// The value is any character but this one.
    CharIsNot(char),
    /// The value is exactly this string.
    StrEq(Vec<char>),
}

/// A transform over parsed values, applied by a mapping parser. A transform
/// that does not fit the shape of the value leaves it unchanged.
pub enum MapFn {
    /// A list of characters becomes a string.
    Collect,
    /// A pair becomes its first component.
    First,
    /// A pair becomes its second component.
    Second,
    /// A pair of a name and an attribute list becomes a childless element.
    MakeElement,
    /// A list of elements becomes this element, with the list as children.
    AttachTo(Element),
}

/// A value-dependent continuation, applied by a chaining parser.
pub enum ChainFn {
    /// After an open tag: the children and the matching close tag.
    ParentTail,
}

/// A value a parser can produce.
#[derive(Debug, PartialEq)]
pub enum Value {
    Unit,
    Ch(char),
    Str(Vec<char>),
    Duo(Box<Value>, Box<Value>),
    List(Vec<Value>),
    Elem(Element),
}

/// A parser: a pure recipe for consuming a prefix of an input view and
/// producing a typed value or a failure carrying a view.
pub enum Parser {
    AnyChar,
    Literal(Vec<char>),
    OneChar(char),
    Ident,
    Mapped(Box<Parser>, MapFn),
    Filtered(Box<Parser>, PredFn),
    Then(Box<Parser>, Box<Parser>),
    Repeat1(Box<Parser>),
    Repeat0(Box<Parser>),
    Choice(Box<Parser>, Box<Parser>),
    Chained(Box<Parser>, ChainFn),
}

/// A parser behind one uniform indirection, mirroring how composed parsers
/// are stored and handed around.
pub struct BoxedParser {
    parser: Box<Parser>,
}

// ---------------------------------------------------------------------------
// Ghost mirrors.
// ---------------------------------------------------------------------------

impl View for PredFn {
    type V = SpecPredFn;

    open spec fn view(&self) -> SpecPredFn {
        match self {
            PredFn::Whitespace => SpecPredFn::Whitespace,
            PredFn::CharIs(c) => SpecPredFn::CharIs(*c),
            PredFn::CharIsNot(c) => SpecPredFn::CharIsNot(*c),
            PredFn::StrEq(s) => SpecPredFn::StrEq(s@),
        }
    }
}

impl View for MapFn {
    type V = SpecMapFn;

    open spec fn view(&self) -> SpecMapFn {
        match self {
            MapFn::Collect => SpecMapFn::Collect,
            MapFn::First => SpecMapFn::First,
            MapFn::Second => SpecMapFn::Second,
            MapFn::MakeElement => SpecMapFn::MakeElement,
            MapFn::AttachTo(e) => SpecMapFn::AttachTo(elem_view(*e)),
        }
    }
}

impl View for ChainFn {
    type V = SpecChainFn;

    open spec fn view(&self) -> SpecChainFn {
        SpecChainFn::ParentTail
    }
}

/// The ghost form of a parsed value.
pub open spec fn value_view(v: Value) -> SpecValue
    decreases v,
{
    match v {
        Value::Unit => SpecValue::Unit,
        Value::Ch(c) => SpecValue::Ch(c),
        Value::Str(s) => SpecValue::Str(s@),
        Value::Duo(a, b) => SpecValue::Duo(Box::new(value_view(*a)), Box::new(value_view(*b))),
        Value::List(items) => SpecValue::List(values_view(items@)),
        Value::Elem(e) => SpecValue::Elem(elem_view(e)),
    }
}

/// The ghost forms of a sequence of parsed values, in order.
pub open spec fn values_view(s: Seq<Value>) -> Seq<SpecValue>
    decreases s,
{
    if s.len() == 0 {
        Seq::empty()
    } else {
        seq![value_view(s[0])] + values_view(s.drop_first())
    }
}

/// The ghost forms of a sequence of values are as many as the values.
pub broadcast proof fn lemma_values_view_len(s: Seq<Value>)
    ensures
        (#[trigger] values_view(s)).len() == s.len(),
    decreases s,
{
    if s.len() > 0 {
        lemma_values_view_len(s.drop_first());
    }
}

/// The ghost forms of a sequence of values correspond value by value.
pub broadcast proof fn lemma_values_view_index(s: Seq<Value>, i: int)
    requires
        0 <= i < s.len(),
    ensures
        #[trigger] values_view(s)[i] == value_view(s[i]),
    decreases s,
{
    lemma_values_view_len(s.drop_first());
    if i > 0 {
        lemma_values_view_index(s.drop_first(), i - 1);
    }
}

/// The ghost form of a value has the shape of the value, with the ghost
/// forms of its parts.
pub broadcast proof fn lemma_value_view_shape(v: Value)
    ensures
        (#[trigger] value_view(v)) is Unit <==> v is Unit,
        value_view(v) is Ch <==> v is Ch,
        value_view(v) is Str <==> v is Str,
        value_view(v) is Duo <==> v is Duo,
        value_view(v) is List <==> v is List,
        value_view(v) is Elem <==> v is Elem,
{
    match v {
        Value::Unit => {},
        Value::Ch(_) => {},
        Value::Str(_) => {},
        Value::Duo(_, _) => {},
        Value::List(_) => {},
        Value::Elem(_) => {},
    }
}

impl View for Value {
    type V = SpecValue;

    open spec fn view(&self) -> SpecValue {
        value_view(*self)
    }
}

/// The ghost form of a parser.
pub open spec fn parser_view(p: Parser) -> SpecParser
    decreases p,
{
    match p {
        Parser::AnyChar => SpecParser::AnyChar,
        Parser::Literal(l) => SpecParser::Literal(l@),
        Parser::OneChar(c) => SpecParser::OneChar(c),
        Parser::Ident => SpecParser::Ident,
        Parser::Mapped(q, f) => SpecParser::Mapped(Box::new(parser_view(*q)), f@),
        Parser::Filtered(q, f) => SpecParser::Filtered(Box::new(parser_view(*q)), f@),
        Parser::Then(a, b) => SpecParser::Then(
            Box::new(parser_view(*a)),
            Box::new(parser_view(*b)),
        ),
        Parser::Repeat1(q) => SpecParser::Repeat1(Box::new(parser_view(*q))),
        Parser::Repeat0(q) => SpecParser::Repeat0(Box::new(parser_view(*q))),
        Parser::Choice(a, b) => SpecParser::Choice(
            Box::new(parser_view(*a)),
            Box::new(parser_view(*b)),
        ),
        Parser::Chained(q, c) => SpecParser::Chained(Box::new(parser_view(*q)), c@),
    }
}

impl View for Parser {
    type V = SpecParser;

    open spec fn view(&self) -> SpecParser {
        parser_view(*self)
    }
}

impl View for BoxedParser {
    type V = SpecParser;

    closed spec fn view(&self) -> SpecParser {
        parser_view(*self.parser)
    }
}

// ---------------------------------------------------------------------------
// The correspondence between an executable result and its ghost meaning.
// ---------------------------------------------------------------------------

/// The executable result `r`, whose positions index `whole`, carries exactly
/// the ghost result `m` of parsing the suffix of `whole` that starts at
/// `pos`: same outcome, same value (in view), and positions that denote the
/// views `m` carries.
pub open spec fn res_matches(
    r: Result<(Value, usize), usize>,
    m: Result<(SpecValue, Seq<char>), Seq<char>>,
    whole: Seq<char>,
    pos: int,
) -> bool {
    match r {
        Ok((v, np)) => match m {
            Ok((mv, mr)) => v@ == mv && pos <= np <= whole.len() && whole.skip(np as int) == mr,
            Err(_) => false,
        },
        Err(ep) => match m {
            Ok(_) => false,
            Err(me) => pos <= ep <= whole.len() && whole.skip(ep as int) == me,
        },
    }
}

// ---------------------------------------------------------------------------
// Helpers over values.
// ---------------------------------------------------------------------------

/// Whether two character vectors hold the same characters.
#[verifier::loop_isolation(false)]
pub(crate) fn chars_eq(a: &Vec<char>, b: &Vec<char>) -> (r: bool)
    ensures
        r == (a@ == b@),
{
    if a.len() != b.len() {
        return false;
    }
    let mut i: usize = 0;
    while i < a.len()
        invariant
            i <= a@.len(),
            a@.len() == b@.len(),
            forall|k: int| 0 <= k < i ==> a@[k] == b@[k],
        decreases a@.len() - i,
    {
        if a[i] != b[i] {
            return false;
        }
        i = i + 1;
    }
    proof {
        assert(a@ =~= b@);
    }
    true
}

/// Whether predicate `f` accepts value `v`.
pub(crate) fn eval_pred(f: &PredFn, v: &Value) -> (b: bool)
    ensures
        b == pred_holds(f@, v@),
{
    broadcast use lemma_value_view_shape;

    match f {
        PredFn::Whitespace => match v {
            Value::Ch(c) => c.is_whitespace(),
            _ => false,
        },
        PredFn::CharIs(c0) => match v {
            Value::Ch(c) => *c == *c0,
            _ => false,
        },
        PredFn::CharIsNot(c0) => match v {
            Value::Ch(c) => *c != *c0,
            _ => false,
        },
        PredFn::StrEq(s0) => match v {
            Value::Str(s) => chars_eq(s, s0),
            _ => false,
        },
    }
}

/// The characters of a list of character values, or `None` where some item
/// is not a character.
#[verifier::loop_isolation(false)]
fn try_chars(items: &Vec<Value>) -> (r: Option<Vec<char>>)
    ensures
        match r {
            Some(cs) => all_chars(values_view(items@)) && cs@ == chars_of(values_view(items@)),
            None => !all_chars(values_view(items@)),
        },
{
    broadcast use lemma_values_view_len, lemma_values_view_index, lemma_value_view_shape,
        crate::xml::lemma_elems_view_len, crate::xml::lemma_elems_view_index;

    let mut out: Vec<char> = Vec::new();
    let mut i: usize = 0;
    while i < items.len()
        invariant
            i <= items@.len(),
            out@.len() == i,
            forall|k: int|
                0 <= k < i ==> (#[trigger] values_view(items@)[k]) is Ch && out@[k] == values_view(items@)[k]->Ch_0,
        decreases items@.len() - i,
    {
        match &items[i] {
            Value::Ch(c) => {
                out.push(*c);
            },
            _ => {
                proof {
                    assert(!(values_view(items@)[i as int] is Ch));
                }
                return None;
            },
        }
        i = i + 1;
    }
    proof {
        assert(out@ =~= chars_of(values_view(items@)));
    }
    Some(out)
}

/// The (key, value) string pairs of a list of string-pair values, or `None`
/// where some item is not such a pair.
#[verifier::loop_isolation(false)]
fn try_string_pairs(items: &Vec<Value>) -> (r: Option<Vec<(Vec<char>, Vec<char>)>>)
    ensures
        match r {
            Some(ps) => all_string_pairs(values_view(items@)) && ps@.len() == items@.len()
                && forall|i: int|
                0 <= i < ps@.len() ==> ((#[trigger] ps@[i]).0@, ps@[i].1@) == string_pairs_of(
                    values_view(items@),
                )[i],
            None => !all_string_pairs(values_view(items@)),
        },
{
    broadcast use lemma_values_view_len, lemma_values_view_index, lemma_value_view_shape,
        crate::xml::lemma_elems_view_len, crate::xml::lemma_elems_view_index;

    let mut out: Vec<(Vec<char>, Vec<char>)> = Vec::new();
    let mut i: usize = 0;
    while i < items.len()
        invariant
            i <= items@.len(),
            out@.len() == i,
            forall|k: int|
                0 <= k < i ==> {
                    let v = #[trigger] values_view(items@)[k];
                    v is Duo && *v->Duo_0 is Str && *v->Duo_1 is Str && out@[k].0@ == (
                    *v->Duo_0)->Str_0 && out@[k].1@ == (*v->Duo_1)->Str_0
                },
        decreases items@.len() - i,
    {
        match &items[i] {
            Value::Duo(a, b) => match (&**a, &**b) {
                (Value::Str(k), Value::Str(w)) => {
                    proof {
                        let vi = value_view(items@[i as int]);
                        assert(values_view(items@)[i as int] == vi);
                        assert(items@[i as int] == Value::Duo(*a, *b));
                        assert(vi == SpecValue::Duo(
                            Box::new(value_view(**a)),
                            Box::new(value_view(**b)),
                        ));
                        assert(**a == Value::Str(*k));
                        assert(value_view(**a) == SpecValue::Str(k@));
                        assert(value_view(**b) == SpecValue::Str(w@));
                    }
                    out.push((clone_chars(k), clone_chars(w)));
                },
                _ => {
                    proof {
                        let vv = values_view(items@);
                        assert(vv[i as int] == value_view(items@[i as int]));
                        assert(!(*vv[i as int]->Duo_0 is Str && *vv[i as int]->Duo_1 is Str));
                        assert(!all_string_pairs(vv));
                    }
                    return None;
                },
            },
            _ => {
                proof {
                    let vv = values_view(items@);
                    assert(vv[i as int] == value_view(items@[i as int]));
                    assert(!(vv[i as int] is Duo));
                    assert(!all_string_pairs(vv));
                }
                return None;
            },
        }
        i = i + 1;
    }
    Some(out)
}

/// The elements of a list of element values, or `None` where some item is
/// not an element.
#[verifier::loop_isolation(false)]
fn try_elems(items: &Vec<Value>) -> (r: Option<Vec<Element>>)
    ensures
        match r {
            Some(es) => all_elems(values_view(items@)) && es@.len() == items@.len() && forall|
                i: int,
            |
                0 <= i < es@.len() ==> (#[trigger] es@[i])@ == elems_of(values_view(items@))[i],
            None => !all_elems(values_view(items@)),
        },
{
    broadcast use lemma_values_view_len, lemma_values_view_index, lemma_value_view_shape,
        crate::xml::lemma_elems_view_len, crate::xml::lemma_elems_view_index;

    let mut out: Vec<Element> = Vec::new();
    let mut i: usize = 0;
    while i < items.len()
        invariant
            i <= items@.len(),
            out@.len() == i,
            forall|k: int|
                0 <= k < i ==> (#[trigger] values_view(items@)[k]) is Elem && out@[k]@
                    == values_view(items@)[k]->Elem_0,
        decreases items@.len() - i,
    {
        match &items[i] {
            Value::Elem(e) => {
                out.push(crate::xml::clone_element(e));
            },
            _ => {
                proof {
                    assert(values_view(items@)[i as int] == value_view(items@[i as int]));
                    assert(!(values_view(items@)[i as int] is Elem));
                }
                return None;
            },
        }
        i = i + 1;
    }
    Some(out)
}

/// The result of transform `f` on value `v`.
#[verifier::loop_isolation(false)]
pub(crate) fn apply_map_fn(f: &MapFn, v: Value) -> (w: Value)
    ensures
        w@ == apply_map(f@, v@),
{
    broadcast use lemma_values_view_len, lemma_values_view_index, lemma_value_view_shape,
        crate::xml::lemma_elems_view_len, crate::xml::lemma_elems_view_index;

    match f {
        MapFn::Collect => {
            match &v {
                Value::List(items) => {
                    match try_chars(items) {
                        Some(cs) => {
                            return Value::Str(cs);
                        },
                        None => {},
                    }
                },
                _ => {},
            }
            v
        },
        MapFn::First => match v {
            Value::Duo(a, _b) => *a,
            other => other,
        },
        MapFn::Second => match v {
            Value::Duo(_a, b) => *b,
            other => other,
        },
        MapFn::MakeElement => {
            match &v {
                Value::Duo(a, b) => match (&**a, &**b) {
                    (Value::Str(n), Value::List(items)) => {
                        proof {
                            assert(v == Value::Duo(*a, *b));
                            assert(v@ == SpecValue::Duo(
                                Box::new(value_view(**a)),
                                Box::new(value_view(**b)),
                            ));
                            assert(value_view(**a) == SpecValue::Str(n@));
                            assert(value_view(**b) == SpecValue::List(values_view(items@)));
                        }
                        match try_string_pairs(items) {
                            Some(ps) => {
                                let el = Element {
                                    name: clone_chars(n),
                                    attributes: ps,
                                    children: Vec::new(),
                                };
                                proof {
                                    assert(value_view(Value::Elem(el)) == SpecValue::Elem(
                                        elem_view(el),
                                    ));
                                    assert(elem_view(el).attributes =~= string_pairs_of(
                                        values_view(items@),
                                    ));
                                    assert(elem_view(el).children =~= Seq::<
                                        crate::model::SpecElement,
                                    >::empty());
                                }
                                return Value::Elem(el);
                            },
                            None => {},
                        }
                    },
                    _ => {
                        proof {
                            assert(v == Value::Duo(*a, *b));
                            assert(v@ == SpecValue::Duo(
                                Box::new(value_view(**a)),
                                Box::new(value_view(**b)),
                            ));
                        }
                    },
                },
                _ => {},
            }
            v
        },
        MapFn::AttachTo(target) => {
            match &v {
                Value::List(items) => {
                    match try_elems(items) {
                        Some(es) => {
                            let el = Element {
                                name: clone_chars(&target.name),
                                attributes: crate::xml::clone_attrs(&target.attributes),
                                children: es,
                            };
                            proof {
                                let vv = values_view(items@);
                                assert(elem_view(el).attributes =~= elem_view(*target).attributes);
                                assert(vv.len() == items@.len());
                                assert forall|k: int| 0 <= k < es@.len() implies crate::xml::elems_view(
                                    es@,
                                )[k] == elems_of(vv)[k] by {
                                    assert(crate::xml::elems_view(es@)[k] == elem_view(es@[k]));
                                }
                                assert(elem_view(el).children =~= elems_of(vv));
                            }
                            return Value::Elem(el);
                        },
                        None => {},
                    }
                },
                _ => {},
            }
            v
        },
    }
}

// ---------------------------------------------------------------------------
// The interpreter.
// ---------------------------------------------------------------------------

/// How many consecutive identifier-continuation characters follow `pos`.
#[verifier::loop_isolation(false)]
fn scan_ident_tail(input: &Vec<char>, pos: usize) -> (j: usize)
    requires
        pos <= input@.len(),
    ensures
        pos <= j <= input@.len(),
        forall|k: int| pos <= k < j ==> ident_char(input@[k]),
        j == input@.len() || !ident_char(input@[j as int]),
{
    let mut j = pos;
    while j < input.len() && (input[j].is_alphanumeric() || input[j] == '-')
        invariant
            pos <= j <= input@.len(),
            forall|k: int| pos <= k < j ==> ident_char(input@[k]),
        decreases input@.len() - j,
    {
        j = j + 1;
    }
    j
}

/// A run of identifier-continuation characters from `i` to `j` exclusive,
/// ending at `j`, has length exactly `j - i`.
proof fn lemma_ident_run(s: Seq<char>, i: int, j: int)
    requires
        0 <= i <= j <= s.len(),
        forall|k: int| i <= k < j ==> ident_char(#[trigger] s[k]),
        j == s.len() || !ident_char(s[j]),
    ensures
        ident_tail_len(s, i) == j - i,
    decreases j - i,
{
    if i < j {
        lemma_ident_run(s, i + 1, j);
    }
}

/// The identifier rule: an alphabetic character, then zero or more
/// alphanumeric-or-hyphen characters; never consumes on failure.
#[verifier::loop_isolation(false)]
fn parse_ident(input: &Vec<char>, pos: usize) -> (r: Result<(Value, usize), usize>)
    requires
        pos <= input@.len(),
    ensures
        res_matches(r, spec_parse(SpecParser::Ident, input@.skip(pos as int)), input@, pos as int),
{
    let ghost s = input@.skip(pos as int);
    if pos < input.len() && input[pos].is_alphabetic() {
        let j = scan_ident_tail(input, pos + 1);
        proof {
            assert forall|k: int| 1 <= k < j - pos implies ident_char(#[trigger] s[k]) by {
                assert(s[k] == input@[pos + k]);
            }
            if j - pos < s.len() {
                assert(s[j - pos] == input@[j as int]);
            }
            lemma_ident_run(s, 1, j - pos);
        }
        let mut out: Vec<char> = Vec::new();
        let mut i: usize = pos;
        while i < j
            invariant
                pos <= i <= j <= input@.len(),
                out@ == input@.subrange(pos as int, i as int),
            decreases j - i,
        {
            out.push(input[i]);
            i = i + 1;
            proof {
                assert(out@ =~= input@.subrange(pos as int, i as int));
            }
        }
        proof {
            assert(out@ =~= s.take(j - pos));
            assert(input@.skip(j as int) =~= s.skip(j - pos));
        }
        Ok((Value::Str(out), j))
    } else {
        Err(pos)
    }
}

/// The character of `input` at `i`, handed out by value.
fn char_at(input: &Vec<char>, i: usize) -> (c: char)
    requires
        i < input@.len(),
    ensures
        c == input@[i as int],
{
    input[i]
}

/// Exactly one character; fails on empty input.
fn parse_any(input: &Vec<char>, pos: usize) -> (r: Result<(Value, usize), usize>)
    requires
        pos <= input@.len(),
    ensures
        res_matches(
            r,
            spec_parse(SpecParser::AnyChar, input@.skip(pos as int)),
            input@,
            pos as int,
        ),
{
    let ghost s = input@.skip(pos as int);
    if pos < input.len() {
        let c = char_at(input, pos);
        let w = Value::Ch(c);
        proof {
            assert(w@ == SpecValue::Ch(c));
            assert(s[0] == input@[pos as int]);
            assert(input@.skip(pos as int + 1) =~= s.skip(1));
        }
        Ok((w, pos + 1))
    } else {
        Err(pos)
    }
}

/// The literal `l` exactly; fails, consuming nothing, where the input does
/// not start with it.
#[verifier::loop_isolation(false)]
fn parse_literal(l: &Vec<char>, input: &Vec<char>, pos: usize) -> (r: Result<
    (Value, usize),
    usize,
>)
    requires
        pos <= input@.len(),
    ensures
        res_matches(
            r,
            spec_parse(SpecParser::Literal(l@), input@.skip(pos as int)),
            input@,
            pos as int,
        ),
{
    let ghost s = input@.skip(pos as int);
    if l.len() <= input.len() - pos {
        let end = pos + l.len();
        let mut j = pos;
        while j < end
            invariant
                pos <= j <= end,
                forall|k: int| 0 <= k < j - pos ==> l@[k] == input@[pos + k],
            decreases end - j,
        {
            if input[j] != l[j - pos] {
                proof {
                    let i = j - pos;
                    assert(s[i] == input@[pos + i]);
                    if l@.is_prefix_of(s) {
                        assert(l@[i] == s.subrange(0, l@.len() as int)[i]);
                    }
                }
                return Err(pos);
            }
            j = j + 1;
        }
        proof {
            assert(l@ =~= s.subrange(0, l@.len() as int));
            assert(l@.is_prefix_of(s));
            assert(input@.skip(pos + l@.len()) =~= s.skip(l@.len() as int));
        }
        Ok((Value::Unit, end))
    } else {
        proof {
            assert(!l@.is_prefix_of(s));
        }
        Err(pos)
    }
}

/// The single character `c0` exactly; fails otherwise.
fn parse_one_char(c0: char, input: &Vec<char>, pos: usize) -> (r: Result<(Value, usize), usize>)
    requires
        pos <= input@.len(),
    ensures
        res_matches(
            r,
            spec_parse(SpecParser::OneChar(c0), input@.skip(pos as int)),
            input@,
            pos as int,
        ),
{
    let ghost s = input@.skip(pos as int);
    if pos < input.len() && input[pos] == c0 {
        proof {
            assert(s[0] == input@[pos as int]);
            assert(input@.skip(pos as int + 1) =~= s.skip(1));
        }
        Ok((Value::Unit, pos + 1))
    } else {
        proof {
            if pos < input@.len() {
                assert(s[0] == input@[pos as int]);
            }
        }
        Err(pos)
    }
}

/// Runs parser `p` over the view of `input` that starts at `pos`, returning
/// exactly what the spec interpreter returns on that view. `spent` tracks
/// the one in-place chaining allowance, exactly as in
/// [`crate::model::spec_parse_step`].
#[verifier::rlimit(50)]
pub(crate) fn parse_node(p: &Parser, input: &Vec<char>, pos: usize, spent: bool) -> (r: Result<
    (Value, usize),
    usize,
>)
    requires
        pos <= input@.len(),
    ensures
        res_matches(r, spec_parse_step(p@, input@.skip(pos as int), spent), input@, pos as int),
    decreases input@.len() - pos, (if spent { 0int } else { 1int }), *p, 0int,
{
    let ghost s = input@.skip(pos as int);
    match p {
        Parser::AnyChar => {
            let r = parse_any(input, pos);
            proof {
                assert(spec_parse_step(p@, s, spent) == spec_parse(SpecParser::AnyChar, s));
            }
            r
        },
        Parser::Literal(l) => {
            let r = parse_literal(l, input, pos);
            proof {
                assert(spec_parse_step(p@, s, spent) == spec_parse(SpecParser::Literal(l@), s));
            }
            r
        },
        Parser::OneChar(c0) => {
            let r = parse_one_char(*c0, input, pos);
            proof {
                assert(spec_parse_step(p@, s, spent) == spec_parse(SpecParser::OneChar(*c0), s));
            }
            r
        },
        Parser::Ident => {
            let r = parse_ident(input, pos);
            proof {
                assert(spec_parse_step(p@, s, spent) == spec_parse(SpecParser::Ident, s));
            }
            r
        },
        Parser::Mapped(q, f) => match parse_node(&**q, input, pos, spent) {
            Ok((v, np)) => {
                let w = apply_map_fn(f, v);
                Ok((w, np))
            },
            Err(e) => Err(e),
        },
        Parser::Filtered(q, f) => match parse_node(&**q, input, pos, spent) {
            Ok((v, np)) => {
                if eval_pred(f, &v) {
                    Ok((v, np))
                } else {
                    Err(pos)
                }
            },
            Err(_) => Err(pos),
        },
        Parser::Then(a, b) => match parse_node(&**a, input, pos, spent) {
            Ok((va, ma)) => {
                let spent2 = if ma > pos {
                    false
                } else {
                    spent
                };
                match parse_node(&**b, input, ma, spent2) {
                    Ok((vb, mb)) => Ok((Value::Duo(Box::new(va), Box::new(vb)), mb)),
                    Err(e) => Err(e),
                }
            },
            Err(e) => Err(e),
        },
        Parser::Repeat1(q) => match parse_node(&**q, input, pos, spent) {
            Ok((v, np)) => {
                if np > pos {
                    let ghost v0 = v@;
                    let (rest, fin) = parse_star(&**q, input, np, false);
                    let mut vs: Vec<Value> = Vec::new();
                    vs.push(v);
                    let mut rest = rest;
                    let ghost rest0 = rest@;
                    vs.append(&mut rest);
                    proof {
                        broadcast use lemma_values_view_len, lemma_values_view_index;

                        let (mvs, mfin) = spec_parse_many_step(
                            parser_view(**q),
                            input@.skip(np as int),
                            false,
                        );
                        assert(vs@ =~= seq![vs@[0]] + rest0);
                        assert(values_view(vs@) =~= seq![v0] + mvs);
                    }
                    Ok((Value::List(vs), fin))
                } else {
                    let ghost v0 = v@;
                    let mut vs: Vec<Value> = Vec::new();
                    vs.push(v);
                    proof {
                        broadcast use lemma_values_view_len, lemma_values_view_index;

                        assert(values_view(vs@) =~= seq![v0]);
                    }
                    Ok((Value::List(vs), np))
                }
            },
            Err(_) => Err(pos),
        },
        Parser::Repeat0(q) => {
            let (vs, fin) = parse_star(&**q, input, pos, spent);
            proof {
                broadcast use lemma_values_view_len, lemma_values_view_index;

                let (mvs, mfin) = spec_parse_many_step(parser_view(**q), s, spent);
                assert(values_view(vs@) =~= mvs);
            }
            Ok((Value::List(vs), fin))
        },
        Parser::Choice(a, b) => match parse_node(&**a, input, pos, spent) {
            Ok(r) => Ok(r),
            Err(_) => parse_node(&**b, input, pos, spent),
        },
        Parser::Chained(q, c) => match parse_node(&**q, input, pos, spent) {
            Ok((v, np)) => {
                if np > pos {
                    match c {
                        ChainFn::ParentTail => match v {
                            Value::Elem(e) => {
                                let tail = parent_tail(e);
                                parse_node(&tail, input, np, false)
                            },
                            _ => Err(np),
                        },
                    }
                } else if !spent {
                    match c {
                        ChainFn::ParentTail => match v {
                            Value::Elem(e) => {
                                let tail = parent_tail(e);
                                parse_node(&tail, input, np, true)
                            },
                            _ => Err(np),
                        },
                    }
                } else {
                    Err(pos)
                }
            },
            Err(e) => Err(e),
        },
    }
}

/// As many successful, consuming applications of `p` as the input admits:
/// the collected values in order and the position after the last one.
#[verifier::loop_isolation(false)]
fn parse_star(p: &Parser, input: &Vec<char>, pos: usize, spent: bool) -> (r: (Vec<Value>, usize))
    requires
        pos <= input@.len(),
    ensures
        ({
            let (mvs, mfin) = spec_parse_many_step(p@, input@.skip(pos as int), spent);
            &&& values_view(r.0@) == mvs
            &&& pos <= r.1 <= input@.len()
            &&& input@.skip(r.1 as int) == mfin
        }),
    decreases input@.len() - pos, (if spent { 0int } else { 1int }), *p, 1int,
{
    broadcast use lemma_values_view_len, lemma_values_view_index, lemma_value_view_shape,
        crate::xml::lemma_elems_view_len, crate::xml::lemma_elems_view_index;

    match parse_node(p, input, pos, spent) {
        Ok((v, np)) => {
            if np > pos {
                let ghost v0 = v@;
                let (rest, fin) = parse_star(p, input, np, false);
                let mut vs: Vec<Value> = Vec::new();
                vs.push(v);
                let mut rest = rest;
                let ghost rest0 = rest@;
                vs.append(&mut rest);
                proof {
                    let (mvs, mfin) = spec_parse_many_step(p@, input@.skip(np as int), false);
                    assert(vs@ =~= seq![vs@[0]] + rest0);
                    assert(values_view(vs@) =~= seq![v0] + mvs);
                }
                (vs, fin)
            } else {
                let vs: Vec<Value> = Vec::new();
                proof {
                    assert(values_view(vs@) =~= Seq::<SpecValue>::empty());
                }
                (vs, pos)
            }
        },
        Err(_) => {
            let vs: Vec<Value> = Vec::new();
            proof {
                assert(values_view(vs@) =~= Seq::<SpecValue>::empty());
            }
            (vs, pos)
        },
    }
}

// ---------------------------------------------------------------------------
// The public face of a parser.
// ---------------------------------------------------------------------------

impl Parser {
    /// Runs the parser on the view of `input` that starts at `pos`. On
    /// success the position is the start of the remaining view; on failure
    /// it is the start of the view the failure carries.
    pub fn parse(&self, input: &Vec<char>, pos: usize) -> (r: Result<(Value, usize), usize>)
        requires
            pos <= input@.len(),
        ensures
            res_matches(r, spec_parse(self@, input@.skip(pos as int)), input@, pos as int),
    {
        parse_node(self, input, pos, false)
    }

    /// The mapping combinator as a chainable method.
    pub fn map(self, map_fn: MapFn) -> (r: BoxedParser)
        ensures
            r@ == SpecParser::Mapped(Box::new(self@), map_fn@),
    {
        BoxedParser::new(crate::combinators::map(self, map_fn))
    }

    /// The filtering combinator as a chainable method.
    pub fn pred(self, pred_fn: PredFn) -> (r: BoxedParser)
        ensures
            r@ == SpecParser::Filtered(Box::new(self@), pred_fn@),
    {
        BoxedParser::new(crate::combinators::pred(self, pred_fn))
    }

    /// The value-dependent chaining combinator as a chainable method.
    pub fn and_then(self, chain_fn: ChainFn) -> (r: BoxedParser)
        ensures
            r@ == SpecParser::Chained(Box::new(self@), chain_fn@),
    {
        BoxedParser::new(crate::combinators::and_then(self, chain_fn))
    }
}

impl BoxedParser {
    /// Stores a parser behind the uniform indirection.
    pub fn new(parser: Parser) -> (r: BoxedParser)
        ensures
            r@ == parser@,
    {
        BoxedParser { parser: Box::new(parser) }
    }

    /// Runs the stored parser; see [`Parser::parse`].
    pub fn parse(&self, input: &Vec<char>, pos: usize) -> (r: Result<(Value, usize), usize>)
        requires
            pos <= input@.len(),
        ensures
            res_matches(r, spec_parse(self@, input@.skip(pos as int)), input@, pos as int),
    {
        parse_node(&self.parser, input, pos, false)
    }
}

} // verus!
