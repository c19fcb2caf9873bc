use xml_combinators::combinators::{either, one_or_more, pair, pred, right, zero_or_more};
use xml_combinators::parser::{PredFn, Value};
use xml_combinators::xml::{
    any_char, attributes, element, identifier, match_char, match_literal, open_element,
    parent_element, quoted_string, quoted_string1, self_closing_element, Element,
};

fn cv(s: &str) -> Vec<char> {
    s.chars().collect()
}

fn rest_of(input: &[char], pos: usize) -> String {
    input[pos..].iter().collect()
}

fn vstr(s: &str) -> Value {
    Value::Str(cv(s))
}

fn elem(name: &str, attrs: &[(&str, &str)], children: Vec<Element>) -> Element {
    Element {
        name: cv(name),
        attributes: attrs.iter().map(|(k, v)| (cv(k), cv(v))).collect(),
        children,
    }
}

#[test]
fn xml_literal() {
    let parse_foo = match_literal("foo");

    let input = cv("foo");
    assert_eq!(Ok((Value::Unit, 3)), parse_foo.parse(&input, 0));

    let input = cv("foo bar");
    let (value, pos) = parse_foo.parse(&input, 0).unwrap();
    assert_eq!(Value::Unit, value);
    assert_eq!(" bar", rest_of(&input, pos));

    let input = cv("baz");
    let err = parse_foo.parse(&input, 0).unwrap_err();
    assert_eq!("baz", rest_of(&input, err));
}

#[test]
fn pair_comb() {
    let open_tag = pair(match_literal("<"), identifier());

    let input = cv("<first-element/>");
    let (value, pos) = open_tag.parse(&input, 0).unwrap();
    assert_eq!(
        Value::Duo(Box::new(Value::Unit), Box::new(vstr("first-element"))),
        value
    );
    assert_eq!("/>", rest_of(&input, pos));

    let input = cv("oops");
    let err = open_tag.parse(&input, 0).unwrap_err();
    assert_eq!("oops", rest_of(&input, err));

    let input = cv("<!oops");
    let err = open_tag.parse(&input, 0).unwrap_err();
    assert_eq!("!oops", rest_of(&input, err));
}

#[test]
fn right_comb() {
    let open_tag = right(match_literal("<"), identifier());

    let input = cv("<first-element/>");
    let (value, pos) = open_tag.parse(&input, 0).unwrap();
    assert_eq!(vstr("first-element"), value);
    assert_eq!("/>", rest_of(&input, pos));

    let input = cv("oops");
    let err = open_tag.parse(&input, 0).unwrap_err();
    assert_eq!("oops", rest_of(&input, err));

    let input = cv("<!oops");
    let err = open_tag.parse(&input, 0).unwrap_err();
    assert_eq!("!oops", rest_of(&input, err));
}

#[test]
fn pred_comb() {
    let parser = pred(any_char(), PredFn::CharIs('o'));
    let input = cv("omg");
    let (value, pos) = parser.parse(&input, 0).unwrap();
    assert_eq!(Value::Ch('o'), value);
    assert_eq!("mg", rest_of(&input, pos));
}

#[test]
fn quoted_string_comb() {
    let parser = quoted_string();

    let input = cv("\"Hello World!\"");
    let (value, pos) = parser.parse(&input, 0).unwrap();
    assert_eq!(vstr("Hello World!"), value);
    assert_eq!("", rest_of(&input, pos));

    let input = cv("\"Hello World!");
    let err = parser.parse(&input, 0).unwrap_err();
    assert_eq!("", rest_of(&input, err));

    let input = cv("Hello World!\"");
    let err = parser.parse(&input, 0).unwrap_err();
    assert_eq!("Hello World!\"", rest_of(&input, err));
}

#[test]
fn attributes_comb() {
    let parser = attributes();
    let input = cv(" hello=\"world\" joe=\"mama\"");
    let (value, pos) = parser.parse(&input, 0).unwrap();
    assert_eq!(
        Value::List(vec![
            Value::Duo(Box::new(vstr("hello")), Box::new(vstr("world"))),
            Value::Duo(Box::new(vstr("joe")), Box::new(vstr("mama"))),
        ]),
        value
    );
    assert_eq!("", rest_of(&input, pos));
}

#[test]
fn single_element_comb() {
    let parser = self_closing_element();
    let input = cv(r#"<div id="container" class="h-full w-full mb-4" />"#);
    let (value, pos) = parser.parse(&input, 0).unwrap();
    assert_eq!(
        Value::Elem(elem(
            "div",
            &[("id", "container"), ("class", "h-full w-full mb-4")],
            vec![],
        )),
        value
    );
    assert_eq!("", rest_of(&input, pos));
}

#[test]
fn open_element_comb() {
    let parser = open_element();
    let input = cv(r#"<div id="container" class="h-full w-full mb-4" >"#);
    let (value, pos) = parser.parse(&input, 0).unwrap();
    assert_eq!(
        Value::Elem(elem(
            "div",
            &[("id", "container"), ("class", "h-full w-full mb-4")],
            vec![],
        )),
        value
    );
    assert_eq!("", rest_of(&input, pos));
}

#[test]
fn element_comb() {
    let parser = parent_element();
    let input = cv(r#"<div id="1" class="1" > <pre id="2" /> </div> "#);
    let (value, pos) = parser.parse(&input, 0).unwrap();
    assert_eq!(
        Value::Elem(elem(
            "div",
            &[("id", "1"), ("class", "1")],
            vec![elem("pre", &[("id", "2")], vec![])],
        )),
        value
    );
    assert_eq!("", rest_of(&input, pos));
}

#[test]
fn xml_parser() {
    let doc = r#"
        <top label="Top">
            <semi-bottom label="Bottom"/>
            <middle>
                <bottom label="Another bottom"/>
            </middle>
        </top>"#;
    let parsed_doc = elem(
        "top",
        &[("label", "Top")],
        vec![
            elem("semi-bottom", &[("label", "Bottom")], vec![]),
            elem(
                "middle",
                &[],
                vec![elem("bottom", &[("label", "Another bottom")], vec![])],
            ),
        ],
    );
    let input = cv(doc);
    let (value, pos) = parent_element().parse(&input, 0).unwrap();
    assert_eq!(Value::Elem(parsed_doc), value);
    assert_eq!("", rest_of(&input, pos));
}

#[test]
fn parse_is_deterministic() {
    let input = cv(r#"<a x="1"><b/></a>"#);
    let first = element().parse(&input, 0);
    let second = element().parse(&input, 0);
    assert_eq!(first, second);
}

#[test]
fn pred_failure_rewinds_consumption() {
    let parser = pred(any_char(), PredFn::CharIs('o'));
    let input = cv("x");
    let err = parser.parse(&input, 0).unwrap_err();
    assert_eq!(0, err);
    assert_eq!("x", rest_of(&input, err));
}

#[test]
fn zero_or_more_never_fails() {
    let parser = zero_or_more(match_literal("x"));
    let input = cv("yyy");
    let (value, pos) = parser.parse(&input, 0).unwrap();
    assert_eq!(Value::List(vec![]), value);
    assert_eq!("yyy", rest_of(&input, pos));

    let input = cv("xxy");
    let (value, pos) = parser.parse(&input, 0).unwrap();
    assert_eq!(Value::List(vec![Value::Unit, Value::Unit]), value);
    assert_eq!("y", rest_of(&input, pos));
}

#[test]
fn one_or_more_fails_where_its_parser_fails() {
    let parser = one_or_more(match_literal("x"));
    let input = cv("yyy");
    let err = parser.parse(&input, 0).unwrap_err();
    assert_eq!(0, err);
    assert_eq!("yyy", rest_of(&input, err));

    let input = cv("xxy");
    let (value, pos) = parser.parse(&input, 0).unwrap();
    assert_eq!(Value::List(vec![Value::Unit, Value::Unit]), value);
    assert_eq!("y", rest_of(&input, pos));
}

#[test]
fn identifier_rule() {
    let input = cv("first-element/>");
    let (value, pos) = identifier().parse(&input, 0).unwrap();
    assert_eq!(vstr("first-element"), value);
    assert_eq!("/>", rest_of(&input, pos));

    let input = cv("1abc");
    let err = identifier().parse(&input, 0).unwrap_err();
    assert_eq!(0, err);
    assert_eq!("1abc", rest_of(&input, err));
}

#[test]
fn close_tag_name_must_match() {
    let input = cv("<div></span>");
    assert!(parent_element().parse(&input, 0).is_err());
    assert!(element().parse(&input, 0).is_err());
}

#[test]
fn match_char_single() {
    let parser = match_char('a');
    let input = cv("abc");
    let (value, pos) = parser.parse(&input, 0).unwrap();
    assert_eq!(Value::Unit, value);
    assert_eq!("bc", rest_of(&input, pos));

    let input = cv("bc");
    let err = parser.parse(&input, 0).unwrap_err();
    assert_eq!(0, err);
}

#[test]
fn quoted_string_method_style_agrees() {
    let input = cv("\"Hello World!\" tail");
    let free = quoted_string().parse(&input, 0);
    let boxed = quoted_string1().parse(&input, 0);
    assert_eq!(free, boxed);
    let (value, pos) = boxed.unwrap();
    assert_eq!(vstr("Hello World!"), value);
    assert_eq!(" tail", rest_of(&input, pos));
}

#[test]
fn either_recovers_from_first_branch() {
    let parser = either(match_literal("abc"), match_literal("abd"));
    let input = cv("abdX");
    let (value, pos) = parser.parse(&input, 0).unwrap();
    assert_eq!(Value::Unit, value);
    assert_eq!("X", rest_of(&input, pos));
}

#[test]
fn and_then_runs_continuation_without_consumption() {
    let head = xml_combinators::combinators::map(
        zero_or_more(match_literal("q")),
        xml_combinators::parser::MapFn::AttachTo(elem("x", &[], vec![])),
    );
    let parser = xml_combinators::combinators::and_then(
        head,
        xml_combinators::parser::ChainFn::ParentTail,
    );
    let input = cv("</x>");
    let (value, pos) = parser.parse(&input, 0).unwrap();
    assert_eq!(Value::Elem(elem("x", &[], vec![])), value);
    assert_eq!("", rest_of(&input, pos));
}

#[test]
fn parse_from_an_offset() {
    let input = cv("..foo");
    let (value, pos) = match_literal("foo").parse(&input, 2).unwrap();
    assert_eq!(Value::Unit, value);
    assert_eq!(5, pos);
}
