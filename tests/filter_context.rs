use filter_context::blend::BlendContext;
use filter_context::data::{Row, Value};
use filter_context::filter_context::{resolve, resolve_qualified, FilterContext, FilterContextError};
use std::rc::Rc;

fn names(cols: &[&str]) -> Vec<String> {
    cols.iter().map(|c| c.to_string()).collect()
}

fn level<'a>(
    alias: &'a str,
    cols: &[&str],
    row: Option<Vec<Value>>,
    next: Option<BlendContext<'a>>,
) -> BlendContext<'a> {
    BlendContext {
        table_alias: alias,
        columns: names(cols),
        row: row.map(Row),
        next: next.map(Box::new),
    }
}

#[test]
fn single_frame_example() {
    let row = Row(vec![Value::I64(1), Value::Str("alice".to_string())]);
    let cols = names(&["id", "name"]);
    let chain = Some(Rc::new(FilterContext::new("t", &cols, &row, None)));
    assert_eq!(resolve(&chain, "name"), Ok(&Value::Str("alice".to_string())));
    assert_eq!(resolve_qualified(&chain, "t", "id"), Ok(&Value::I64(1)));
    assert_eq!(
        resolve_qualified(&chain, "x", "id"),
        Err(FilterContextError::ValueNotFound)
    );
}

#[test]
fn unknown_column_is_not_found() {
    let row = Row(vec![Value::I64(1)]);
    let cols = names(&["id"]);
    let ctx = FilterContext::new("t", &cols, &row, None);
    assert_eq!(ctx.get_value("ID"), Err(FilterContextError::ValueNotFound));
    assert_eq!(ctx.get_value("missing"), Err(FilterContextError::ValueNotFound));
}

#[test]
fn empty_chain_finds_nothing() {
    let chain: Option<Rc<FilterContext>> = None;
    assert_eq!(resolve(&chain, "id"), Err(FilterContextError::ValueNotFound));
    assert_eq!(
        resolve_qualified(&chain, "t", "id"),
        Err(FilterContextError::ValueNotFound)
    );
}

#[test]
fn head_frame_shadows_outer_frame() {
    let outer_row = Row(vec![Value::I64(1), Value::Bool(false)]);
    let inner_row = Row(vec![Value::I64(2)]);
    let outer_cols = names(&["id", "flag"]);
    let inner_cols = names(&["id"]);
    let outer = Rc::new(FilterContext::new("o", &outer_cols, &outer_row, None));
    let inner = FilterContext::new("i", &inner_cols, &inner_row, Some(outer));
    assert_eq!(inner.get_value("id"), Ok(&Value::I64(2)));
    assert_eq!(inner.get_value("flag"), Ok(&Value::Bool(false)));
    assert_eq!(inner.get_alias_value("o", "id"), Ok(&Value::I64(1)));
    assert_eq!(inner.get_alias_value("i", "id"), Ok(&Value::I64(2)));
    assert_eq!(
        inner.get_alias_value("i", "flag"),
        Err(FilterContextError::ValueNotFound)
    );
}

#[test]
fn qualified_lookup_ignores_other_aliases() {
    let a_row = Row(vec![Value::Str("from a".to_string())]);
    let b_row = Row(vec![Value::Str("from b".to_string())]);
    let cols = names(&["v"]);
    let b = Rc::new(FilterContext::new("b", &cols, &b_row, None));
    let a = FilterContext::new("a", &cols, &a_row, Some(b));
    assert_eq!(a.get_alias_value("b", "v"), Ok(&Value::Str("from b".to_string())));
    assert_eq!(a.get_alias_value("c", "v"), Err(FilterContextError::ValueNotFound));
}

#[test]
fn first_matching_column_wins_within_a_frame() {
    let row = Row(vec![Value::I64(10), Value::I64(20)]);
    let cols = names(&["x", "x"]);
    let ctx = FilterContext::new("t", &cols, &row, None);
    assert_eq!(ctx.get_value("x"), Ok(&Value::I64(10)));
}

#[test]
fn short_row_falls_back_to_outer_frame() {
    let outer_row = Row(vec![Value::I64(7)]);
    let short_row = Row(vec![]);
    let cols = names(&["id"]);
    let outer = Rc::new(FilterContext::new("t", &cols, &outer_row, None));
    let inner = FilterContext::new("t", &cols, &short_row, Some(outer));
    assert_eq!(inner.get_value("id"), Ok(&Value::I64(7)));
    assert_eq!(inner.get_alias_value("t", "id"), Ok(&Value::I64(7)));
}

#[test]
fn last_level_walked_has_top_priority() {
    let b2 = level("b2", &["c", "tag"], Some(vec![Value::I64(2), Value::Str("b2".to_string())]), None);
    let b1 = level("b1", &["c", "tag", "only1"], Some(vec![Value::I64(1), Value::Str("b1".to_string()), Value::Null]), Some(b2));
    let b0 = level("b0", &["c", "only0"], Some(vec![Value::I64(0), Value::Bool(true)]), Some(b1));
    let chain = FilterContext::concat(None, &b0);
    assert_eq!(resolve(&chain, "c"), Ok(&Value::I64(2)));
    assert_eq!(resolve(&chain, "tag"), Ok(&Value::Str("b2".to_string())));
    assert_eq!(resolve(&chain, "only1"), Ok(&Value::Null));
    assert_eq!(resolve(&chain, "only0"), Ok(&Value::Bool(true)));
    assert_eq!(resolve_qualified(&chain, "b1", "c"), Ok(&Value::I64(1)));
    assert_eq!(resolve_qualified(&chain, "b0", "c"), Ok(&Value::I64(0)));
    assert_eq!(resolve_qualified(&chain, "b2", "tag"), Ok(&Value::Str("b2".to_string())));
}

#[test]
fn rowless_level_adds_no_frame() {
    let b2 = level("b2", &["c"], Some(vec![Value::I64(2)]), None);
    let b1 = level("b1", &["c", "only1"], None, Some(b2));
    let b0 = level("b0", &["c", "only0"], Some(vec![Value::I64(0), Value::I64(5)]), Some(b1));
    let chain = FilterContext::concat(None, &b0);
    assert_eq!(resolve(&chain, "c"), Ok(&Value::I64(2)));
    assert_eq!(resolve(&chain, "only0"), Ok(&Value::I64(5)));
    assert_eq!(resolve(&chain, "only1"), Err(FilterContextError::ValueNotFound));
    assert_eq!(resolve_qualified(&chain, "b1", "c"), Err(FilterContextError::ValueNotFound));
    assert_eq!(resolve_qualified(&chain, "b0", "c"), Ok(&Value::I64(0)));
}

#[test]
fn all_rowless_levels_keep_existing_chain() {
    let row = Row(vec![Value::I64(3)]);
    let cols = names(&["id"]);
    let existing = Some(Rc::new(FilterContext::new("e", &cols, &row, None)));
    let b1 = level("b1", &["id"], None, None);
    let b0 = level("b0", &["id"], None, Some(b1));
    let chain = FilterContext::concat(existing, &b0);
    assert_eq!(resolve(&chain, "id"), Ok(&Value::I64(3)));
    let none = FilterContext::concat(None, &b0);
    assert!(none.is_none());
}

#[test]
fn new_levels_shadow_existing_chain() {
    let row = Row(vec![Value::I64(3), Value::I64(4)]);
    let cols = names(&["id", "old"]);
    let existing = Some(Rc::new(FilterContext::new("e", &cols, &row, None)));
    let b0 = level("n", &["id"], Some(vec![Value::I64(9)]), None);
    let chain = FilterContext::concat(existing, &b0);
    assert_eq!(resolve(&chain, "id"), Ok(&Value::I64(9)));
    assert_eq!(resolve(&chain, "old"), Ok(&Value::I64(4)));
    assert_eq!(resolve_qualified(&chain, "e", "id"), Ok(&Value::I64(3)));
}

#[test]
fn repeated_lookups_agree() {
    let b1 = level("u", &["id"], Some(vec![Value::I64(1)]), None);
    let b0 = level("v", &["id", "w"], Some(vec![Value::I64(0), Value::I64(8)]), Some(b1));
    let chain = FilterContext::concat(None, &b0);
    for _ in 0..3 {
        assert_eq!(resolve(&chain, "id"), Ok(&Value::I64(1)));
        assert_eq!(resolve_qualified(&chain, "v", "w"), Ok(&Value::I64(8)));
        assert_eq!(resolve(&chain, "zz"), Err(FilterContextError::ValueNotFound));
    }
}

#[test]
fn row_positional_access() {
    let row = Row(vec![Value::I64(1), Value::Null]);
    assert_eq!(row.get_value(0), Some(&Value::I64(1)));
    assert_eq!(row.get_value(1), Some(&Value::Null));
    assert_eq!(row.get_value(2), None);
}
