use story_store::models::{DbError, PagePatch};
use story_store::patch::{build_patch_statement, render_update_sql, PageColumn};
use story_store::rows::{
    choices_from_rows, listings_from_rows, page_rows_from_rows, rows_affected_outcome,
};

#[test]
fn patch_with_name_only() {
    let patch = PagePatch { id: 7, name: Some("X".to_string()), body: None };
    let stmt = build_patch_statement(7, &patch).unwrap();
    assert_eq!(stmt.page_id, 7);
    assert_eq!(stmt.columns, vec![PageColumn::Name]);
    assert_eq!(stmt.values, vec!["X".to_string()]);
    assert_eq!(render_update_sql(&stmt), "UPDATE pages SET name = ? WHERE id = ?;");
}

#[test]
fn patch_with_body_only() {
    let patch = PagePatch { id: 7, name: None, body: Some("Y".to_string()) };
    let stmt = build_patch_statement(7, &patch).unwrap();
    assert_eq!(stmt.columns, vec![PageColumn::Body]);
    assert_eq!(stmt.values, vec!["Y".to_string()]);
    assert_eq!(render_update_sql(&stmt), "UPDATE pages SET content = ? WHERE id = ?;");
}

#[test]
fn patch_with_both_fields_keeps_name_before_body() {
    let patch = PagePatch { id: 7, name: Some("X".to_string()), body: Some("Y".to_string()) };
    let stmt = build_patch_statement(7, &patch).unwrap();
    assert_eq!(stmt.columns, vec![PageColumn::Name, PageColumn::Body]);
    assert_eq!(stmt.values, vec!["X".to_string(), "Y".to_string()]);
    assert_eq!(
        render_update_sql(&stmt),
        "UPDATE pages SET name = ?, content = ? WHERE id = ?;"
    );
}

#[test]
fn empty_patch_is_invalid_argument() {
    let patch = PagePatch { id: 7, name: None, body: None };
    assert_eq!(build_patch_statement(7, &patch).unwrap_err(), DbError::InvalidArgument);
}

#[test]
fn zero_rows_affected_is_not_found() {
    assert_eq!(rows_affected_outcome(0), Err(DbError::NotFound));
    assert_eq!(rows_affected_outcome(1), Ok(()));
    assert_eq!(rows_affected_outcome(3), Ok(()));
}

#[test]
fn listings_map_rows_in_order() {
    let rows = vec![(1, "Alpha".to_string()), (2, "Beta".to_string())];
    let listings = listings_from_rows(rows);
    assert_eq!(listings.len(), 2);
    assert_eq!(listings[0].id, 1);
    assert_eq!(listings[0].title, "Alpha");
    assert_eq!(listings[1].id, 2);
    assert_eq!(listings[1].title, "Beta");
}

#[test]
fn choices_map_rows_in_order() {
    let rows = vec![(4, 2, "north".to_string(), 9), (5, 2, "south".to_string(), 3)];
    let choices = choices_from_rows(rows);
    assert_eq!(choices.len(), 2);
    assert_eq!(choices[0].id, 4);
    assert_eq!(choices[0].page_id, 2);
    assert_eq!(choices[0].text, "north");
    assert_eq!(choices[0].target_page, 9);
    assert_eq!(choices[1].text, "south");
    assert_eq!(choices[1].target_page, 3);
}

#[test]
fn page_rows_map_tuples_in_order() {
    let rows = vec![(8, 1, "Door".to_string(), "A door.".to_string())];
    let pages = page_rows_from_rows(rows);
    assert_eq!(pages.len(), 1);
    assert_eq!(pages[0].id, 8);
    assert_eq!(pages[0].story_id, 1);
    assert_eq!(pages[0].name, "Door");
    assert_eq!(pages[0].body, "A door.");
}
