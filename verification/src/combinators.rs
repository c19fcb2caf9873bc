//! The combinator library: free functions that build new parsers from
//! existing ones, and the laws that hold of them.

use vstd::prelude::*;

use crate::model::{spec_left, spec_pair, spec_parent_tail, spec_parse, spec_parse_many,
    spec_right, SpecChainFn, SpecParser, SpecPredFn, SpecValue};
use crate::parser::{ChainFn, MapFn, Parser, PredFn};

verus! {

/// Runs `parser`; on success applies `map_fn` to the value, passing the
/// remainder through unchanged; on failure propagates the failure view.
pub fn map(parser: Parser, map_fn: MapFn) -> (r: Parser)
    ensures
        r@ == SpecParser::Mapped(Box::new(parser@), map_fn@),
{
    Parser::Mapped(Box::new(parser), map_fn)
}

/// Runs `parser`; on success applies `chain_fn` to the value to obtain the
/// next parser, which then runs on the remainder. This is the one place a
/// value flows forward through the grammar.
pub fn and_then(parser: Parser, chain_fn: ChainFn) -> (r: Parser)
    ensures
        r@ == SpecParser::Chained(Box::new(parser@), chain_fn@),
{
    Parser::Chained(Box::new(parser), chain_fn)
}

/// Runs `parser` and keeps its value only where `pred_fn` accepts it; any
/// failure, of the parser or of the predicate, carries the original view.
pub fn pred(parser: Parser, pred_fn: PredFn) -> (r: Parser)
    ensures
        r@ == SpecParser::Filtered(Box::new(parser@), pred_fn@),
{
    Parser::Filtered(Box::new(parser), pred_fn)
}

/// Runs `parser1`, then `parser2` on its remainder; succeeds with the pair
/// of both values, and propagates the failure view of whichever stage fails.
pub fn pair(parser1: Parser, parser2: Parser) -> (r: Parser)
    ensures
        r@ == spec_pair(parser1@, parser2@),
{
    Parser::Then(Box::new(parser1), Box::new(parser2))
}

/// `pair`, keeping only the first value.
pub fn left(parser1: Parser, parser2: Parser) -> (r: Parser)
    ensures
        r@ == spec_left(parser1@, parser2@),
{
    map(pair(parser1, parser2), MapFn::First)
}

/// `pair`, keeping only the second value.
pub fn right(parser1: Parser, parser2: Parser) -> (r: Parser)
    ensures
        r@ == spec_right(parser1@, parser2@),
{
    map(pair(parser1, parser2), MapFn::Second)
}

/// At least one successful application of `parser`, then as many more as the
/// input admits, collected in order; fails with the original view where the
/// first application fails.
pub fn one_or_more(parser: Parser) -> (r: Parser)
    ensures
        r@ == SpecParser::Repeat1(Box::new(parser@)),
{
    Parser::Repeat1(Box::new(parser))
}

/// As many successful applications of `parser` as the input admits; never
/// fails.
pub fn zero_or_more(parser: Parser) -> (r: Parser)
    ensures
        r@ == SpecParser::Repeat0(Box::new(parser@)),
{
    Parser::Repeat0(Box::new(parser))
}

/// Ordered choice: `parser1` on the input, or, discarding that failure,
/// `parser2` on the same original input.
pub fn either(parser1: Parser, parser2: Parser) -> (r: Parser)
    ensures
        r@ == SpecParser::Choice(Box::new(parser1@), Box::new(parser2@)),
{
    Parser::Choice(Box::new(parser1), Box::new(parser2))
}

// ---------------------------------------------------------------------------
// Laws.
// ---------------------------------------------------------------------------

/// Whatever the parser, a failure of a filtering parser carries exactly the
/// input view it was run on: predicate rejection rewinds all consumption.
pub proof fn lemma_pred_rewinds_on_failure(p: SpecParser, f: SpecPredFn, s: Seq<char>)
    ensures
        spec_parse(SpecParser::Filtered(Box::new(p), f), s) is Err
            ==> spec_parse(SpecParser::Filtered(Box::new(p), f), s) == Err::<
            (SpecValue, Seq<char>),
            Seq<char>,
        >(s),
{
}

/// `zero_or_more` is total: it never fails, and where its parser fails at
/// once the result is the empty sequence with the input view unchanged.
pub proof fn lemma_zero_or_more_total(p: SpecParser, s: Seq<char>)
    ensures
        spec_parse(SpecParser::Repeat0(Box::new(p)), s) is Ok,
        spec_parse(p, s) is Err ==> spec_parse(SpecParser::Repeat0(Box::new(p)), s) == Ok::<
            (SpecValue, Seq<char>),
            Seq<char>,
        >((SpecValue::List(Seq::empty()), s)),
{
    if spec_parse(p, s) is Err {
        assert(spec_parse_many(p, s) == (Seq::<SpecValue>::empty(), s));
    }
}

/// `one_or_more` demands exactly one thing more than `zero_or_more`: it
/// fails precisely where its parser fails, and then carries the input view
/// unchanged.
pub proof fn lemma_one_or_more_minimal(p: SpecParser, s: Seq<char>)
    ensures
        spec_parse(SpecParser::Repeat1(Box::new(p)), s) is Err <==> spec_parse(p, s) is Err,
        spec_parse(p, s) is Err ==> spec_parse(SpecParser::Repeat1(Box::new(p)), s) == Err::<
            (SpecValue, Seq<char>),
            Seq<char>,
        >(s),
{
}

/// Ordered choice recovers from the first branch's failure by retrying the
/// second on the same original view; where both branches rewind on failure,
/// so does the choice.
pub proof fn lemma_either_rewinds_on_failure(a: SpecParser, b: SpecParser, s: Seq<char>)
    requires
        spec_parse(b, s) is Err ==> spec_parse(b, s) == Err::<(SpecValue, Seq<char>), Seq<char>>(s),
    ensures
        spec_parse(SpecParser::Choice(Box::new(a), Box::new(b)), s) is Err ==> spec_parse(
            SpecParser::Choice(Box::new(a), Box::new(b)),
            s,
        ) == Err::<(SpecValue, Seq<char>), Seq<char>>(s),
{
}

/// The primitive matchers never consume on failure: a failure of `any_char`,
/// of a literal, of a single-character match or of the identifier rule
/// carries exactly the view it was run on.
pub proof fn lemma_primitives_rewind_on_failure(l: Seq<char>, c: char, s: Seq<char>)
    ensures
        spec_parse(SpecParser::AnyChar, s) is Err ==> spec_parse(SpecParser::AnyChar, s) == Err::<
            (SpecValue, Seq<char>),
            Seq<char>,
        >(s),
        spec_parse(SpecParser::Literal(l), s) is Err ==> spec_parse(SpecParser::Literal(l), s)
            == Err::<(SpecValue, Seq<char>), Seq<char>>(s),
        spec_parse(SpecParser::OneChar(c), s) is Err ==> spec_parse(SpecParser::OneChar(c), s)
            == Err::<(SpecValue, Seq<char>), Seq<char>>(s),
        spec_parse(SpecParser::Ident, s) is Err ==> spec_parse(SpecParser::Ident, s) == Err::<
            (SpecValue, Seq<char>),
            Seq<char>,
        >(s),
{
}

/// Value-dependent chaining honours its contract unconditionally: whenever
/// the first stage succeeds — consuming or not — the chained parser returns
/// exactly what the continuation's parser returns on the first stage's
/// remainder, or fails carrying that remainder where the value is not an
/// element, the one shape the continuation accepts.
pub proof fn lemma_and_then_runs_continuation(p: SpecParser, c: SpecChainFn, s: Seq<char>)
    requires
        spec_parse(p, s) is Ok,
    ensures
        ({
            let (v, r) = spec_parse(p, s)->Ok_0;
            spec_parse(SpecParser::Chained(Box::new(p), c), s) == match c {
                SpecChainFn::ParentTail => match v {
                    SpecValue::Elem(e) => spec_parse(spec_parent_tail(e), r),
                    _ => Err::<(SpecValue, Seq<char>), Seq<char>>(r),
                },
            }
        }),
{
    let (v, r) = spec_parse(p, s)->Ok_0;
    crate::model::lemma_parse_view_suffix(p, s, false);
    if r.len() < s.len() {
    } else {
        assert(r =~= s);
        match v {
            SpecValue::Elem(e) => {
                crate::model::lemma_parent_tail_chain_heads(e);
                crate::model::lemma_spent_irrelevant(spec_parent_tail(e), r);
            },
            _ => {},
        }
    }
}

/// Parsing is deterministic: the result of a parse is a function of the
/// parser and the input view alone, so two runs of one parser over one view
/// agree — same outcome, same positions, and values equal in view.
pub proof fn lemma_parse_deterministic(
    r1: Result<(crate::parser::Value, usize), usize>,
    r2: Result<(crate::parser::Value, usize), usize>,
    m: Result<(SpecValue, Seq<char>), Seq<char>>,
    whole: Seq<char>,
    pos: int,
)
    requires
        crate::parser::res_matches(r1, m, whole, pos),
        crate::parser::res_matches(r2, m, whole, pos),
    ensures
        r1 is Ok <==> r2 is Ok,
        r1 is Ok ==> r1->Ok_0.0@ == r2->Ok_0.0@ && r1->Ok_0.1 == r2->Ok_0.1,
        r1 is Err ==> r1 == r2,
{
    match (r1, r2) {
        (Ok((v1, n1)), Ok((v2, n2))) => {
            assert(whole.skip(n1 as int).len() == whole.skip(n2 as int).len());
        },
        (Err(e1), Err(e2)) => {
            assert(whole.skip(e1 as int).len() == whole.skip(e2 as int).len());
        },
        _ => {},
    }
}

} // verus!
