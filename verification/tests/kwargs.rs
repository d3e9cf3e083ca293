use kwarg_macros::cursor::TTLookAhead;
use kwarg_macros::decl::{kwarg_decl, parse_params, position, KWargDecl, Parameter};
use kwarg_macros::diagnostic::{decimal, DeclarationFault, Diagnostic, EmptyValue};
use kwarg_macros::expand::{build_call, new_delimited};
use kwarg_macros::registry::{Redeclare, Registry};
use kwarg_macros::sample::{bar, baz, baz2, foo};
use kwarg_macros::token::{clone_tts, get_span_from_tt, DelimToken, Span, Token, TokenTree};

// ---------------------------------------------------------------------------
// Helpers: a small lexer from text to token trees, a printer back to text, and
// an evaluator for the few expressions that the calls below pass.
// ---------------------------------------------------------------------------

fn sp(lo: usize, hi: usize) -> Span {
    Span { lo, hi }
}

fn closer(open: char) -> char {
    match open {
        '(' => ')',
        '[' => ']',
        _ => '}',
    }
}

fn delim(open: char) -> DelimToken {
    match open {
        '(' => DelimToken::Paren,
        '[' => DelimToken::Bracket,
        _ => DelimToken::Brace,
    }
}

fn lex_until(chars: &[char], at: &mut usize, close: Option<char>) -> Vec<TokenTree> {
    let mut out = Vec::new();
    while *at < chars.len() {
        let c = chars[*at];
        if Some(c) == close {
            return out;
        }
        let lo = *at;
        if c.is_whitespace() {
            *at += 1;
        } else if c == '(' || c == '[' || c == '{' {
            *at += 1;
            let inner = lex_until(chars, at, Some(closer(c)));
            assert!(*at < chars.len(), "unclosed group");
            *at += 1;
            out.push(TokenTree::Delimited(sp(lo, *at), delim(c), inner));
        } else if c.is_alphanumeric() || c == '_' {
            while *at < chars.len() && (chars[*at].is_alphanumeric() || chars[*at] == '_') {
                *at += 1;
            }
            let text: String = chars[lo..*at].iter().collect();
            let token = if c.is_ascii_digit() { Token::Other(text) } else { Token::Ident(text) };
            out.push(TokenTree::Token(sp(lo, *at), token));
        } else {
            *at += 1;
            let token = match c {
                '=' => Token::Eq,
                ',' => Token::Comma,
                _ => Token::Other(c.to_string()),
            };
            out.push(TokenTree::Token(sp(lo, *at), token));
        }
    }
    assert!(close.is_none(), "unclosed group");
    out
}

/// The token trees of `text`; a span is the range of character offsets.
fn lex(text: &str) -> Vec<TokenTree> {
    let chars: Vec<char> = text.chars().collect();
    let mut at = 0;
    lex_until(&chars, &mut at, None)
}

/// The text of token trees, with one blank between two tokens.
fn show(tts: &[TokenTree]) -> String {
    let mut parts = Vec::new();
    for tt in tts {
        parts.push(match tt {
            TokenTree::Token(_, Token::Ident(s)) => s.clone(),
            TokenTree::Token(_, Token::Other(s)) => s.clone(),
            TokenTree::Token(_, Token::Eq) => "=".to_string(),
            TokenTree::Token(_, Token::Comma) => ",".to_string(),
            TokenTree::Delimited(_, d, inner) => {
                let (open, close) = match d {
                    DelimToken::Paren => ("(", ")"),
                    DelimToken::Bracket => ("[", "]"),
                    DelimToken::Brace => ("{", "}"),
                };
                format!("{}{}{}", open, show(inner), close)
            }
        });
    }
    parts.join(" ")
}

fn show_args(args: &[Vec<TokenTree>]) -> Vec<String> {
    args.iter().map(|a| show(a)).collect()
}

fn declare(text: &str) -> KWargDecl {
    kwarg_decl(sp(0, text.len()), &lex(text)).unwrap()
}

/// The whole-invocation span that the calls below are given.
fn call_span() -> Span {
    sp(1000, 2000)
}

fn resolve(decl: &KWargDecl, call: &str) -> Result<Vec<String>, Diagnostic> {
    decl.resolve(call_span(), &lex(call)).map(|args| show_args(&args))
}

fn eval_int(tts: &[TokenTree]) -> isize {
    match tts {
        [TokenTree::Token(_, Token::Other(n))] => n.parse().unwrap(),
        [TokenTree::Token(_, Token::Other(l)), TokenTree::Token(_, Token::Other(op)), TokenTree::Token(_, Token::Other(r))]
            if op == "+" =>
        {
            l.parse::<isize>().unwrap() + r.parse::<isize>().unwrap()
        }
        _ => panic!("not an integer expression: {}", show(tts)),
    }
}

fn eval_opt(tts: &[TokenTree]) -> Option<isize> {
    match tts {
        [TokenTree::Token(_, Token::Ident(none))] if none == "None" => None,
        [TokenTree::Token(_, Token::Ident(some)), TokenTree::Delimited(_, DelimToken::Paren, inner)]
            if some == "Some" =>
        {
            Some(eval_int(inner))
        }
        _ => panic!("not an optional integer: {}", show(tts)),
    }
}

/// Expands `call` by the declaration of `name` and hands back the arguments
/// of the rewritten call.
fn call_args(registry: &Registry, name: &str, call: &str) -> Vec<Vec<TokenTree>> {
    let decl = registry.lookup(&name.to_string()).unwrap();
    let rewritten = decl.expand(call_span(), &lex(call)).unwrap();
    let args = decl.resolve(call_span(), &lex(call)).unwrap();
    assert_eq!(rewritten, build_call(&name.to_string(), call_span(), clone_args(&args)));
    args
}

fn clone_args(args: &[Vec<TokenTree>]) -> Vec<Vec<TokenTree>> {
    args.iter().map(|a| clone_tts(a)).collect()
}

fn call_foo(registry: &Registry, call: &str) -> (isize, Option<isize>, Option<isize>) {
    let args = call_args(registry, "foo", call);
    assert_eq!(args.len(), 3);
    foo(eval_int(&args[0]), eval_opt(&args[1]), eval_opt(&args[2]))
}

fn call_bar(registry: &Registry, call: &str) -> isize {
    let args = call_args(registry, "bar", call);
    assert_eq!(args.len(), 1);
    bar(eval_int(&args[0]))
}

// ---------------------------------------------------------------------------
// Whole flow: declare, invoke, call.
// ---------------------------------------------------------------------------

#[test]
fn test() {
    let mut registry = Registry::new(Redeclare::Overwrite);
    for statement in ["foo(a = 1, b = None, c = Some(6))", "bar(a)", "baz()", "baz2(a)"] {
        registry.declare(sp(0, statement.len()), &lex(statement)).unwrap();
    }

    let ret = call_foo(&registry, "");
    assert_eq!(ret, (1, None, Some(6)));
    let ret = call_foo(&registry, "c = Some(2), b = Some(6)");
    assert_eq!(ret, (1, Some(6), Some(2)));
    let ret = call_foo(&registry, "a = 1 + 5");
    assert_eq!(ret, (6, None, Some(6)));

    let ret = call_bar(&registry, "a = 1 + 5");
    assert_eq!(ret, (6));

    assert!(call_args(&registry, "baz", "").is_empty());
    baz();

    // The value of a keyword argument may itself hold `=`.
    let args = call_args(&registry, "baz2", "a = a = 1us");
    assert_eq!(show_args(&args), vec!["a = 1us"]);
    let mut a;
    baz2(a = 1usize);
    let _b = a;
}

#[test]
fn sample_callees_return_their_arguments() {
    assert_eq!(foo(1, None, Some(6)), (1, None, Some(6)));
    assert_eq!(foo(-3, Some(2), None), (-3, Some(2), None));
    assert_eq!(bar(6), 6);
    baz();
    baz2(());
}

// ---------------------------------------------------------------------------
// Expansion.
// ---------------------------------------------------------------------------

#[test]
fn all_defaults_in_declared_order() {
    let decl = declare("foo(a=1, b=2, c=3)");
    assert_eq!(resolve(&decl, ""), Ok(vec!["1".to_string(), "2".to_string(), "3".to_string()]));
    let call = decl.expand(call_span(), &[]).unwrap();
    assert_eq!(show(&call), "foo (1 , 2 , 3)");
}

#[test]
fn keywords_in_any_order_come_out_in_declared_order() {
    let decl = declare("foo(a=1, b=2, c=3)");
    assert_eq!(
        resolve(&decl, "c=30, a=10"),
        Ok(vec!["10".to_string(), "2".to_string(), "30".to_string()])
    );
    let call = decl.expand(call_span(), &lex("c=30, a=10")).unwrap();
    assert_eq!(show(&call), "foo (10 , 2 , 30)");
}

#[test]
fn required_parameter_must_be_given() {
    let decl = declare("bar(a)");
    assert_eq!(
        resolve(&decl, ""),
        Err(Diagnostic::MissingRequiredArgument { span: call_span(), name: "a".to_string() })
    );
    assert_eq!(resolve(&decl, "1+5"), Ok(vec!["1 + 5".to_string()]));
    // The argument is moved, not computed.
    let args = decl.resolve(call_span(), &lex("1+5")).unwrap();
    assert_eq!(args, vec![lex("1+5")]);
}

#[test]
fn first_missing_parameter_is_named() {
    let decl = declare("f(a, b = 2, c, d)");
    assert_eq!(
        resolve(&decl, "1"),
        Err(Diagnostic::MissingRequiredArgument { span: call_span(), name: "c".to_string() })
    );
    assert_eq!(
        resolve(&decl, "d = 4"),
        Err(Diagnostic::MissingRequiredArgument { span: call_span(), name: "a".to_string() })
    );
}

#[test]
fn no_parameters_take_no_arguments() {
    let decl = declare("baz()");
    assert_eq!(resolve(&decl, ""), Ok(vec![]));
    assert_eq!(show(&decl.expand(call_span(), &[]).unwrap()), "baz ()");
    assert_eq!(
        resolve(&decl, "1"),
        Err(Diagnostic::ArityExceeded { span: call_span(), target: "baz".to_string(), expected: 0 })
    );
    // A stray comma is a positional argument too many before it is an empty one.
    assert_eq!(
        resolve(&decl, ","),
        Err(Diagnostic::ArityExceeded { span: call_span(), target: "baz".to_string(), expected: 0 })
    );
    // A keyword head is looked up before anything is counted.
    assert_eq!(resolve(&decl, "a = 1"), Err(Diagnostic::UnknownArgumentName { span: sp(0, 1) }));
}

#[test]
fn too_many_positional_arguments() {
    let decl = declare("foo(a=1, b=2, c=3)");
    assert_eq!(
        resolve(&decl, "1, 2, 3, 4"),
        Err(Diagnostic::ArityExceeded { span: call_span(), target: "foo".to_string(), expected: 3 })
    );
}

#[test]
fn positional_after_keyword_is_refused() {
    let decl = declare("foo(a=1, b=2, c=3)");
    assert_eq!(resolve(&decl, "a=1, 2"), Err(Diagnostic::OrderingViolation { span: sp(5, 6) }));
    assert_eq!(resolve(&decl, "7, c=1, 2, 3"), Err(Diagnostic::OrderingViolation { span: sp(8, 9) }));
    // A group is a token tree like any other: the error is at the whole group.
    assert_eq!(resolve(&decl, "b=1, (2)"), Err(Diagnostic::OrderingViolation { span: sp(5, 8) }));
    // A comma where the positional argument should begin is that argument's first token.
    assert_eq!(resolve(&decl, "b=1, , 2"), Err(Diagnostic::OrderingViolation { span: sp(5, 6) }));
}

#[test]
fn unknown_keyword_is_refused_at_its_name() {
    let decl = declare("foo(a=1, b=2, c=3)");
    assert_eq!(resolve(&decl, "z=1"), Err(Diagnostic::UnknownArgumentName { span: sp(0, 1) }));
    assert_eq!(resolve(&decl, "1, zz = 2"), Err(Diagnostic::UnknownArgumentName { span: sp(3, 5) }));
    // The callee's name is not a parameter.
    assert_eq!(resolve(&decl, "foo = 2"), Err(Diagnostic::UnknownArgumentName { span: sp(0, 3) }));
}

#[test]
fn canonical_call_is_left_as_it_is() {
    let decl = declare("foo(a=1, b=2, c=3)");
    let input = lex("1,2,3");
    let args = decl.resolve(call_span(), &input).unwrap();
    assert_eq!(args, vec![clone_tts(&input[0..1]), clone_tts(&input[2..3]), clone_tts(&input[4..5])]);
    assert_eq!(show_args(&args), vec!["1", "2", "3"]);
    let call = decl.expand(call_span(), &input).unwrap();
    assert_eq!(show(&call), "foo (1 , 2 , 3)");
    match &call[1] {
        TokenTree::Delimited(_, DelimToken::Paren, inner) => {
            assert_eq!(show(inner), show(&input));
            // Expanding what came out changes nothing more.
            let again = decl.expand(call_span(), inner).unwrap();
            assert_eq!(again, call);
        }
        other => panic!("not a group: {:?}", other),
    }
}

#[test]
fn canonical_call_with_commas_at_the_call_span_is_identical() {
    let decl = declare("foo(a, b, c)");
    let comma = || TokenTree::Token(call_span(), Token::Comma);
    let mut input = lex("x");
    input.push(comma());
    input.push(TokenTree::Token(sp(10, 11), Token::Other("2".to_string())));
    input.push(comma());
    input.extend(lex("          f(1, 2)"));
    let call = decl.expand(call_span(), &input).unwrap();
    assert_eq!(
        call,
        vec![
            TokenTree::Token(call_span(), Token::Ident("foo".to_string())),
            TokenTree::Delimited(call_span(), DelimToken::Paren, input),
        ]
    );
}

#[test]
fn positional_and_keyword_arguments_mix() {
    let decl = declare("foo(a, b=2, c=3, d)");
    assert_eq!(
        resolve(&decl, "10, 20, d = 40"),
        Ok(vec!["10".to_string(), "20".to_string(), "3".to_string(), "40".to_string()])
    );
    assert_eq!(
        resolve(&decl, "d = 4, a = 1"),
        Ok(vec!["1".to_string(), "2".to_string(), "3".to_string(), "4".to_string()])
    );
}

#[test]
fn later_binding_of_a_parameter_replaces_the_earlier() {
    let decl = declare("foo(a=1, b=2)");
    assert_eq!(resolve(&decl, "a = 5, a = 6"), Ok(vec!["6".to_string(), "2".to_string()]));
    assert_eq!(resolve(&decl, "5, a = 6"), Ok(vec!["6".to_string(), "2".to_string()]));
}

#[test]
fn comma_inside_a_group_does_not_end_an_argument() {
    let decl = declare("foo(a = f(1, 2), b = [3, 4])");
    assert_eq!(resolve(&decl, ""), Ok(vec!["f (1 , 2)".to_string(), "[3 , 4]".to_string()]));
    assert_eq!(
        resolve(&decl, "b = g(x, y) + {p, q}, a = (1, 2)"),
        Ok(vec!["(1 , 2)".to_string(), "g (x , y) + {p , q}".to_string()])
    );
    assert_eq!(
        resolve(&decl, "h(1, 2), k(3, 4)"),
        Ok(vec!["h (1 , 2)".to_string(), "k (3 , 4)".to_string()])
    );
}

#[test]
fn comma_after_the_last_argument_is_accepted() {
    let decl = declare("foo(a=1, b=2)");
    assert_eq!(resolve(&decl, "5,"), Ok(vec!["5".to_string(), "2".to_string()]));
    assert_eq!(resolve(&decl, "5, b = 6,"), Ok(vec!["5".to_string(), "6".to_string()]));
}

#[test]
fn empty_argument_is_refused() {
    let decl = declare("foo(a=1, b=2)");
    // A comma where a value should begin.
    let at_comma = |lo, hi| Err(Diagnostic::EmptyArgumentValue { span: sp(lo, hi), found: EmptyValue::Comma });
    assert_eq!(resolve(&decl, ", 1"), at_comma(0, 1));
    assert_eq!(resolve(&decl, "1,, 2"), at_comma(2, 3));
    assert_eq!(resolve(&decl, "a = , b = 1"), at_comma(4, 5));
    assert_eq!(resolve(&decl, "a = ,"), at_comma(4, 5));
    // Nothing after `=`: the error is at the `=`.
    let at_end = |lo, hi| Err(Diagnostic::EmptyArgumentValue { span: sp(lo, hi), found: EmptyValue::End });
    assert_eq!(resolve(&decl, "a ="), at_end(2, 3));
    assert_eq!(resolve(&decl, "3, b ="), at_end(5, 6));
}

#[test]
fn name_without_equals_is_positional() {
    let decl = declare("foo(a=1, b=2)");
    assert_eq!(resolve(&decl, "b"), Ok(vec!["b".to_string(), "2".to_string()]));
    assert_eq!(resolve(&decl, "b + 1, a"), Ok(vec!["b + 1".to_string(), "a".to_string()]));
    // `==` is two `=` to the scan: the head is `b =`.
    assert_eq!(resolve(&decl, "b == 1"), Ok(vec!["1".to_string(), "= 1".to_string()]));
}

#[test]
fn first_error_in_token_order_wins() {
    let decl = declare("foo(a, b)");
    // The unknown name comes before the missing `a`.
    assert_eq!(resolve(&decl, "z = 1"), Err(Diagnostic::UnknownArgumentName { span: sp(0, 1) }));
    // The empty value comes before the positional argument after a keyword.
    assert_eq!(
        resolve(&decl, "a = , 2"),
        Err(Diagnostic::EmptyArgumentValue { span: sp(4, 5), found: EmptyValue::Comma })
    );
    // Too many arguments are seen before the missing one could be.
    let one = declare("one(a, b = 1)");
    assert_eq!(
        resolve(&one, "1, 2, 3"),
        Err(Diagnostic::ArityExceeded { span: call_span(), target: "one".to_string(), expected: 2 })
    );
}

#[test]
fn defaults_are_inserted_anew_at_each_call() {
    let decl = declare("foo(a = next())");
    let first = decl.resolve(sp(1, 2), &[]).unwrap();
    let second = decl.resolve(sp(3, 4), &[]).unwrap();
    assert_eq!(first, second);
    // The tokens are those of the declaration, spans and all: `next()` at offsets 8 to 14.
    assert_eq!(first, vec![respan(lex("next()"), 8)]);
}

#[test]
fn build_call_joins_with_commas_at_the_given_span() {
    let at = sp(7, 9);
    let comma = || TokenTree::Token(at, Token::Comma);
    let name = "f".to_string();
    assert_eq!(
        build_call(&name, at, vec![]),
        vec![
            TokenTree::Token(at, Token::Ident("f".to_string())),
            TokenTree::Delimited(at, DelimToken::Paren, vec![]),
        ]
    );
    let one = build_call(&name, at, vec![lex("a b")]);
    assert_eq!(one[1], TokenTree::Delimited(at, DelimToken::Paren, lex("a b")));
    let mut inner = lex("a b");
    inner.push(comma());
    inner.push(comma());
    inner.extend(lex("   c"));
    let three = build_call(&name, at, vec![lex("a b"), vec![], lex("   c")]);
    assert_eq!(three[1], TokenTree::Delimited(at, DelimToken::Paren, inner));
}

#[test]
fn new_delimited_makes_a_group() {
    assert_eq!(
        new_delimited(sp(1, 2), DelimToken::Brace, lex("a, b")),
        TokenTree::Delimited(sp(1, 2), DelimToken::Brace, lex("a, b"))
    );
}

// ---------------------------------------------------------------------------
// Declarations.
// ---------------------------------------------------------------------------

fn param(name: &str, default: Option<&str>) -> Parameter {
    Parameter { name: name.to_string(), default: default.map(|d| lex(d)) }
}

fn declared(text: &str) -> Vec<(String, Option<String>)> {
    declare(text)
        .params()
        .iter()
        .map(|p| (p.name.clone(), p.default.as_ref().map(|d| show(d))))
        .collect()
}

fn fault(text: &str) -> (Span, DeclarationFault) {
    match kwarg_decl(sp(500, 600), &lex(text)) {
        Err(Diagnostic::DeclarationSyntaxError { span, fault }) => (span, fault),
        other => panic!("not a syntax error: {:?}", other),
    }
}

#[test]
fn declaration_keeps_names_order_and_defaults() {
    let decl = declare("foo(a = 1, b, c = Some(6))");
    assert_eq!(decl.name(), "foo");
    assert_eq!(decl.arity(), 3);
    assert_eq!(
        declared("foo(a = 1, b, c = Some(6))"),
        vec![
            ("a".to_string(), Some("1".to_string())),
            ("b".to_string(), None),
            ("c".to_string(), Some("Some (6)".to_string())),
        ]
    );
    // Default tokens keep their spans.
    assert_eq!(decl.params()[0].default, Some(vec![TokenTree::Token(sp(8, 9), Token::Other("1".to_string()))]));
}

#[test]
fn declaration_without_parameters() {
    let decl = declare("baz()");
    assert_eq!(decl.name(), "baz");
    assert_eq!(decl.arity(), 0);
    assert!(decl.params().is_empty());
}

#[test]
fn declaration_commas_are_optional_and_one_may_trail() {
    let two = vec![("a".to_string(), None), ("b".to_string(), None)];
    assert_eq!(declared("f(a, b)"), two);
    assert_eq!(declared("f(a b)"), two);
    assert_eq!(declared("f(a, b,)"), two);
    assert_eq!(
        declared("f(a = 1, b = 2,)"),
        vec![("a".to_string(), Some("1".to_string())), ("b".to_string(), Some("2".to_string()))]
    );
}

#[test]
fn declaration_default_runs_to_the_next_comma() {
    assert_eq!(
        declared("f(a = x + g(1, 2) = 3, b = , c =)"),
        vec![
            ("a".to_string(), Some("x + g (1 , 2) = 3".to_string())),
            ("b".to_string(), Some("".to_string())),
            ("c".to_string(), Some("".to_string())),
        ]
    );
}

#[test]
fn declaration_needs_a_name() {
    assert_eq!(fault(""), (sp(500, 600), DeclarationFault::MissingName));
    assert_eq!(fault("(a)"), (sp(0, 3), DeclarationFault::MissingName));
    assert_eq!(fault("1(a)"), (sp(0, 1), DeclarationFault::MissingName));
    assert_eq!(fault("= f(a)"), (sp(0, 1), DeclarationFault::MissingName));
}

#[test]
fn declaration_needs_a_parenthesised_group() {
    assert_eq!(fault("f"), (sp(500, 600), DeclarationFault::MissingParameters));
    assert_eq!(fault("f g"), (sp(2, 3), DeclarationFault::MissingParameters));
    assert_eq!(fault("f [a]"), (sp(2, 5), DeclarationFault::MissingParameters));
    assert_eq!(fault("f {a}"), (sp(2, 5), DeclarationFault::MissingParameters));
}

#[test]
fn declaration_ends_with_the_group() {
    assert_eq!(fault("f(a) b"), (sp(5, 6), DeclarationFault::TrailingTokens));
    assert_eq!(fault("f()()"), (sp(3, 5), DeclarationFault::TrailingTokens));
    // An error inside the group comes first.
    assert_eq!(fault("f(1) b"), (sp(2, 3), DeclarationFault::MalformedParameter));
}

#[test]
fn declaration_entry_must_begin_with_a_name() {
    assert_eq!(fault("f(1)"), (sp(2, 3), DeclarationFault::MalformedParameter));
    assert_eq!(fault("f(a, = 1)"), (sp(5, 6), DeclarationFault::MalformedParameter));
    assert_eq!(fault("f(a,, b)"), (sp(4, 5), DeclarationFault::MalformedParameter));
    assert_eq!(fault("f(, a)"), (sp(2, 3), DeclarationFault::MalformedParameter));
    assert_eq!(fault("f(a + b)"), (sp(4, 5), DeclarationFault::MalformedParameter));
    assert_eq!(fault("f(a = 1,, b)"), (sp(8, 9), DeclarationFault::MalformedParameter));
    assert_eq!(fault("f(a, (b))"), (sp(5, 8), DeclarationFault::MalformedParameter));
}

#[test]
fn declaration_names_are_distinct() {
    assert_eq!(fault("f(a, b, a)"), (sp(8, 9), DeclarationFault::DuplicateParameter));
    assert_eq!(fault("f(a = 1, a = 2)"), (sp(9, 10), DeclarationFault::DuplicateParameter));
    assert_eq!(fault("f(a a)"), (sp(4, 5), DeclarationFault::DuplicateParameter));
}

#[test]
fn parse_params_reads_a_group() {
    assert_eq!(
        parse_params(&lex("a, b = 2")),
        Ok(vec![
            param("a", None),
            Parameter { name: "b".to_string(), default: Some(respan(lex("2"), 7)) },
        ])
    );
    assert_eq!(parse_params(&[]), Ok(vec![]));
    assert_eq!(
        parse_params(&lex("a, 2")),
        Err(Diagnostic::DeclarationSyntaxError {
            span: sp(3, 4),
            fault: DeclarationFault::MalformedParameter
        })
    );
}

/// Moves every span by `by`.
fn respan(tts: Vec<TokenTree>, by: usize) -> Vec<TokenTree> {
    tts.into_iter()
        .map(|tt| match tt {
            TokenTree::Token(s, t) => TokenTree::Token(sp(s.lo + by, s.hi + by), t),
            TokenTree::Delimited(s, d, inner) => {
                TokenTree::Delimited(sp(s.lo + by, s.hi + by), d, respan(inner, by))
            }
        })
        .collect()
}

#[test]
fn position_finds_the_parameter_of_a_name() {
    let params = vec![param("a", None), param("b", Some("1")), param("c", None)];
    assert_eq!(position(&params, &"a".to_string()), Some(0));
    assert_eq!(position(&params, &"c".to_string()), Some(2));
    assert_eq!(position(&params, &"d".to_string()), None);
    assert_eq!(position(&[], &"a".to_string()), None);
    let twice = vec![param("a", None), param("b", None), param("b", Some("1"))];
    assert_eq!(position(&twice, &"b".to_string()), Some(1));
}

#[test]
fn clones_are_equal() {
    let decl = declare("foo(a = f(1, [2, {3}]), b)");
    assert_eq!(decl.clone(), decl);
    let tts = lex("a = f(1, [2, {3}]), b");
    assert_eq!(clone_tts(&tts), tts);
    assert_eq!(tts[2].clone(), tts[2]);
    assert_eq!(clone_tts(&[]), vec![]);
    let p = param("x", Some("g(1)"));
    assert_eq!(p.clone(), p);
}

// ---------------------------------------------------------------------------
// Registry.
// ---------------------------------------------------------------------------

#[test]
fn registry_insert_and_lookup() {
    let mut registry = Registry::new(Redeclare::Overwrite);
    assert_eq!(registry.policy(), Redeclare::Overwrite);
    assert!(registry.lookup(&"foo".to_string()).is_none());
    registry.insert(declare("foo(a = 1)"));
    registry.insert(declare("bar(a)"));
    assert_eq!(registry.lookup(&"foo".to_string()), Some(&declare("foo(a = 1)")));
    assert_eq!(registry.lookup(&"bar".to_string()), Some(&declare("bar(a)")));
    assert!(registry.lookup(&"baz".to_string()).is_none());
}

#[test]
fn registry_insert_overwrites() {
    for policy in [Redeclare::Overwrite, Redeclare::Reject] {
        let mut registry = Registry::new(policy);
        registry.insert(declare("foo(a = 1)"));
        registry.insert(declare("bar(a)"));
        registry.insert(declare("foo(a = 1, b = 2)"));
        assert_eq!(registry.lookup(&"foo".to_string()), Some(&declare("foo(a = 1, b = 2)")));
        assert_eq!(registry.lookup(&"bar".to_string()), Some(&declare("bar(a)")));
    }
}

#[test]
fn registry_declare_follows_its_policy() {
    let first = "foo(a = 1)";
    let second = "  foo(b)";

    let mut overwriting = Registry::new(Redeclare::Overwrite);
    assert_eq!(overwriting.declare(sp(0, 10), &lex(first)), Ok(()));
    assert_eq!(overwriting.declare(sp(0, 10), &lex(second)), Ok(()));
    assert_eq!(overwriting.lookup(&"foo".to_string()).unwrap().params(), &vec![param("b", None)]);

    let mut rejecting = Registry::new(Redeclare::Reject);
    assert_eq!(rejecting.policy(), Redeclare::Reject);
    assert_eq!(rejecting.declare(sp(0, 10), &lex(first)), Ok(()));
    assert_eq!(
        rejecting.declare(sp(0, 10), &lex(second)),
        Err(Diagnostic::Redeclaration { span: sp(2, 5), name: "foo".to_string() })
    );
    assert_eq!(rejecting.lookup(&"foo".to_string()), Some(&declare(first)));
    assert_eq!(rejecting.declare(sp(0, 10), &lex("bar()")), Ok(()));
    assert!(rejecting.lookup(&"bar".to_string()).is_some());
}

#[test]
fn registry_declare_with_an_error_changes_nothing() {
    let mut registry = Registry::new(Redeclare::Overwrite);
    registry.declare(sp(0, 10), &lex("foo(a = 1)")).unwrap();
    assert_eq!(
        registry.declare(sp(0, 10), &lex("foo(1)")),
        Err(Diagnostic::DeclarationSyntaxError {
            span: sp(4, 5),
            fault: DeclarationFault::MalformedParameter
        })
    );
    assert_eq!(registry.lookup(&"foo".to_string()), Some(&declare("foo(a = 1)")));
}

#[test]
fn registry_expands_by_the_declaration_of_the_name() {
    let mut registry = Registry::new(Redeclare::Overwrite);
    registry.insert(declare("foo(a = 1, b = 2)"));
    let call = registry.expand(&"foo".to_string(), call_span(), &lex("b = 5")).unwrap().unwrap();
    assert_eq!(show(&call), "foo (1 , 5)");
    assert_eq!(
        registry.expand(&"foo".to_string(), call_span(), &lex("c = 5")),
        Some(Err(Diagnostic::UnknownArgumentName { span: sp(0, 1) }))
    );
    assert_eq!(registry.expand(&"bar".to_string(), call_span(), &lex("b = 5")), None);
}

// ---------------------------------------------------------------------------
// Diagnostics.
// ---------------------------------------------------------------------------

#[test]
fn diagnostic_span_is_the_one_it_was_made_with() {
    let at = sp(3, 4);
    let all = vec![
        Diagnostic::DeclarationSyntaxError { span: at, fault: DeclarationFault::MissingName },
        Diagnostic::Redeclaration { span: at, name: "f".to_string() },
        Diagnostic::UnknownArgumentName { span: at },
        Diagnostic::OrderingViolation { span: at },
        Diagnostic::ArityExceeded { span: at, target: "f".to_string(), expected: 1 },
        Diagnostic::EmptyArgumentValue { span: at, found: EmptyValue::Comma },
        Diagnostic::EmptyArgumentValue { span: at, found: EmptyValue::End },
        Diagnostic::MissingRequiredArgument { span: at, name: "a".to_string() },
    ];
    for d in all {
        assert_eq!(d.span(), at);
    }
}

#[test]
fn diagnostic_messages() {
    let at = sp(0, 0);
    let syntax = |fault| Diagnostic::DeclarationSyntaxError { span: at, fault }.message();
    assert_eq!(syntax(DeclarationFault::MissingName), "expected the name of the function to declare");
    assert_eq!(
        syntax(DeclarationFault::MissingParameters),
        "expected a parenthesized list of arguments after the name"
    );
    assert_eq!(syntax(DeclarationFault::TrailingTokens), "unexpected token after the list of arguments");
    assert_eq!(
        syntax(DeclarationFault::MalformedParameter),
        "expected a sequence of `arg_name` or `arg_name = default_expr`"
    );
    assert_eq!(syntax(DeclarationFault::DuplicateParameter), "argument name is declared twice");
    assert_eq!(
        Diagnostic::Redeclaration { span: at, name: "foo".to_string() }.message(),
        "`foo` is declared already"
    );
    assert_eq!(Diagnostic::UnknownArgumentName { span: at }.message(), "unknown argument name");
    assert_eq!(
        Diagnostic::OrderingViolation { span: at }.message(),
        "positional arguments must precede keyword arguments"
    );
    assert_eq!(
        Diagnostic::ArityExceeded { span: at, target: "foo".to_string(), expected: 3 }.message(),
        "too many arguments passed to `foo` (expected 3)"
    );
    assert_eq!(
        Diagnostic::ArityExceeded { span: at, target: "g".to_string(), expected: 120 }.message(),
        "too many arguments passed to `g` (expected 120)"
    );
    assert_eq!(
        Diagnostic::EmptyArgumentValue { span: at, found: EmptyValue::Comma }.message(),
        "unexpected token: `,`"
    );
    assert_eq!(
        Diagnostic::EmptyArgumentValue { span: at, found: EmptyValue::End }.message(),
        "expected argument value after `=`"
    );
    assert_eq!(
        Diagnostic::MissingRequiredArgument { span: at, name: "a".to_string() }.message(),
        "argument `a` is required, but not given a value"
    );
}

#[test]
fn decimal_writes_numbers() {
    assert_eq!(decimal(0), "0");
    assert_eq!(decimal(7), "7");
    assert_eq!(decimal(9), "9");
    assert_eq!(decimal(10), "10");
    assert_eq!(decimal(1234567890), "1234567890");
    assert_eq!(decimal(usize::MAX), usize::MAX.to_string());
}

// ---------------------------------------------------------------------------
// Tokens and the cursor.
// ---------------------------------------------------------------------------

#[test]
fn token_predicates() {
    let tts = lex("a = , 1 (b)");
    assert_eq!(tts[0].ident(), Some(&"a".to_string()));
    assert!(tts[1].is_eq());
    assert!(tts[2].is_comma());
    for (i, tt) in tts.iter().enumerate() {
        assert_eq!(tt.ident().is_some(), i == 0);
        assert_eq!(tt.is_eq(), i == 1);
        assert_eq!(tt.is_comma(), i == 2);
    }
    assert_eq!(get_span_from_tt(&tts[3]), sp(6, 7));
    assert_eq!(get_span_from_tt(&tts[4]), sp(8, 11));
}

#[test]
fn cursor_shows_two_tokens_and_moves_by_one() {
    let tts = lex("a b c");
    let mut cur = TTLookAhead::new(&tts);
    assert_eq!(cur.pos(), 0);
    assert_eq!(cur.cur_tt(), Some(&tts[0]));
    assert_eq!(cur.next_tt(), Some(&tts[1]));
    assert_eq!(cur.bump(), Some(&tts[1]));
    assert_eq!(cur.cur_tt(), Some(&tts[1]));
    assert_eq!(cur.next_tt(), Some(&tts[2]));
    assert_eq!(cur.bump(), Some(&tts[2]));
    assert_eq!(cur.next_tt(), None);
    assert_eq!(cur.bump(), None);
    assert_eq!(cur.pos(), 3);
    assert_eq!(cur.cur_tt(), None);
    assert_eq!(cur.next_tt(), None);
    // At the end the cursor stays.
    assert_eq!(cur.bump(), None);
    assert_eq!(cur.pos(), 3);
}

#[test]
fn cursor_over_nothing() {
    let mut cur = TTLookAhead::new(&[]);
    assert_eq!(cur.cur_tt(), None);
    assert_eq!(cur.next_tt(), None);
    assert_eq!(cur.bump(), None);
    assert_eq!(cur.pos(), 0);
    assert_eq!(cur.collect_until_comma(), vec![]);
}

#[test]
fn cursor_collects_up_to_the_next_comma() {
    let tts = lex("a (b, c) d, e,, f");
    let mut cur = TTLookAhead::new(&tts);
    assert_eq!(cur.collect_until_comma(), clone_tts(&tts[0..3]));
    assert_eq!(cur.pos(), 3);
    assert!(cur.cur_tt().unwrap().is_comma());
    // On a comma nothing is collected and the cursor does not move.
    assert_eq!(cur.collect_until_comma(), vec![]);
    assert_eq!(cur.pos(), 3);
    cur.bump();
    assert_eq!(cur.collect_until_comma(), clone_tts(&tts[4..5]));
    cur.bump();
    assert_eq!(cur.collect_until_comma(), vec![]);
    cur.bump();
    assert_eq!(cur.collect_until_comma(), clone_tts(&tts[7..8]));
    assert_eq!(cur.pos(), 8);
    assert_eq!(cur.cur_tt(), None);
}
