use monokl::query::lexer::{Lexer, Token};
use monokl::query::{Modifier, ParsedTerm, QueryPlan, parse};

#[test]
fn reexported_items_reachable_at_query_root() {
    let terms: Vec<ParsedTerm> = parse("+foo").unwrap();
    assert_eq!(terms.len(), 1);
    assert_eq!(terms[0].modifier, Modifier::Required);
    let qp = QueryPlan::from_terms(terms);
    assert_eq!(qp.required, vec![0]);
}

#[test]
fn lexer_and_token_only_reachable_via_query_lexer_path() {
    let mut l = Lexer::new("foo");
    assert_eq!(l.next_token(), Token::Word("foo".to_string()));
}
