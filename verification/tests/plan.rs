use monokl::query::parser::{Modifier, ParsedTerm};
use monokl::query::plan::QueryPlan;

struct PlanSerProbe<T>(std::marker::PhantomData<T>);
trait NotPlanSer {
    const IS: bool = false;
}
impl<T> NotPlanSer for PlanSerProbe<T> {}
impl<T: serde::Serialize> PlanSerProbe<T> {
    const IS: bool = true;
}

struct PlanDeProbe<T>(std::marker::PhantomData<T>);
trait NotPlanDe {
    const IS: bool = false;
}
impl<T> NotPlanDe for PlanDeProbe<T> {}
impl<T: serde::de::DeserializeOwned> PlanDeProbe<T> {
    const IS: bool = true;
}

#[test]
fn query_plan_absence_of_serde_derive_pinned() {
    assert!(!PlanSerProbe::<QueryPlan>::IS);
    assert!(!PlanDeProbe::<QueryPlan>::IS);
    assert!(PlanSerProbe::<usize>::IS);
    assert!(PlanDeProbe::<usize>::IS);
}

fn assert_query_plan_derives<T: std::fmt::Debug + Clone>() {}

#[test]
fn query_plan_shape_and_pub_fields() {
    assert_query_plan_derives::<QueryPlan>();
    let qp = QueryPlan { terms: vec![], required: vec![], excluded: vec![], scored: vec![] };
    assert!(qp.terms.is_empty());
    assert!(qp.required.is_empty());
    assert!(qp.excluded.is_empty());
    assert!(qp.scored.is_empty());
}

#[test]
fn from_terms_on_empty_vec_produces_all_empty_fields() {
    let qp = QueryPlan::from_terms(Vec::new());
    assert!(qp.terms.is_empty());
    assert!(qp.required.is_empty());
    assert!(qp.excluded.is_empty());
    assert!(qp.scored.is_empty());
}

fn term(modifier: Modifier, pattern: &str) -> ParsedTerm {
    ParsedTerm { modifier, pattern: pattern.to_string(), is_regex: false }
}

#[test]
fn from_terms_partitions_preserving_relative_order() {
    let terms = vec![
        term(Modifier::Optional, "s0"),
        term(Modifier::Required, "r0"),
        term(Modifier::Excluded, "e0"),
        term(Modifier::Required, "r1"),
        term(Modifier::Optional, "s1"),
        term(Modifier::Excluded, "e1"),
    ];
    let qp = QueryPlan::from_terms(terms);
    assert_eq!(qp.required, vec![1, 3]);
    assert_eq!(qp.excluded, vec![2, 5]);
    assert_eq!(qp.scored, vec![0, 4]);
    let mut all: Vec<usize> =
        qp.required.iter().chain(qp.excluded.iter()).chain(qp.scored.iter()).copied().collect();
    all.sort_unstable();
    assert_eq!(all, vec![0, 1, 2, 3, 4, 5]);
}

#[test]
fn is_empty_true_only_when_terms_is_fully_empty() {
    let qp = QueryPlan::from_terms(Vec::new());
    assert!(qp.is_empty());

    let excl_only =
        QueryPlan::from_terms(vec![term(Modifier::Excluded, "e0"), term(Modifier::Excluded, "e1")]);
    assert!(!excl_only.is_empty());
    assert!(excl_only.search_patterns().is_empty());
}

#[test]
fn search_patterns_required_then_scored_excludes_excluded() {
    let terms = vec![
        term(Modifier::Optional, "s0"),
        term(Modifier::Required, "r0"),
        term(Modifier::Excluded, "e0"),
    ];
    let qp = QueryPlan::from_terms(terms);
    assert_eq!(qp.search_patterns(), vec!["r0", "s0"]);
}

#[test]
fn search_patterns_preserves_each_categorys_own_relative_order() {
    let terms = vec![
        term(Modifier::Required, "r0"),
        term(Modifier::Optional, "s0"),
        term(Modifier::Required, "r1"),
        term(Modifier::Optional, "s1"),
    ];
    let qp = QueryPlan::from_terms(terms);
    assert_eq!(qp.search_patterns(), vec!["r0", "r1", "s0", "s1"]);
}

#[test]
fn search_patterns_directly_constructed_plan_ignores_excluded_membership() {
    let qp = QueryPlan {
        terms: vec![term(Modifier::Excluded, "e0"), term(Modifier::Required, "r0")],
        required: vec![0, 1],
        excluded: vec![0],
        scored: vec![],
    };
    assert_eq!(qp.search_patterns(), vec!["e0", "r0"]);
}

struct DefaultProbe<T>(std::marker::PhantomData<T>);
trait NotDefault {
    const IS: bool = false;
}
impl<T> NotDefault for DefaultProbe<T> {}
impl<T: Default> DefaultProbe<T> {
    const IS: bool = true;
}

#[test]
fn query_plan_absence_of_default_pinned() {
    assert!(!DefaultProbe::<QueryPlan>::IS);
    assert!(DefaultProbe::<usize>::IS);
}

// A plan built from a parsed query.
#[test]
fn plan_of_parsed_query_lists_each_term_once() {
    let terms = monokl::query::parse("+a -b c regex:d \"e f\"").unwrap();
    let qp = QueryPlan::from_terms(terms);
    assert_eq!(qp.required, vec![0]);
    assert_eq!(qp.excluded, vec![1]);
    assert_eq!(qp.scored, vec![2, 3, 4]);
    assert_eq!(qp.search_patterns(), vec!["a", "c", "d", "e f"]);
}
