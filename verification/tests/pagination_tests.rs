use issuetrack::codec::Cursor;
use issuetrack::codec::encode_key;
use issuetrack::connection::Connection;
use issuetrack::connection::assemble;
use issuetrack::connection::paginate;
use issuetrack::models::Project;
use issuetrack::pagination::Page;
use issuetrack::pagination::PaginationError;
use issuetrack::pagination::page_after_key;

fn project(slug: &str) -> Project {
    Project { id: 0, slug: String::from(slug), name: format!("project {}", slug) }
}

fn slugs(c: &Connection<issuetrack::api::Project>) -> Vec<String> {
    c.edges.iter().map(|e| e.node.model.slug.clone()).collect()
}

fn listed(keys: &[&str]) -> Vec<Project> {
    keys.iter().map(|k| project(k)).collect()
}

fn page_of(
    keys: &[&str],
    first: u64,
    after: Option<&Cursor>,
) -> Result<Connection<issuetrack::api::Project>, PaginationError> {
    issuetrack::api::projects_connection(listed(keys), first, after, 100)
}

#[test]
fn two_pages_cover_four_keys() {
    let first = page_of(&["a", "b", "c", "d"], 2, None).unwrap();
    assert_eq!(slugs(&first), vec!["a".to_string(), "b".to_string()]);
    assert!(first.page_info.has_next_page);
    assert!(!first.page_info.has_previous_page);

    let resume = Cursor::from_token(first.edges[1].cursor.token().clone());
    let second = page_of(&["a", "b", "c", "d"], 2, Some(&resume)).unwrap();
    assert_eq!(slugs(&second), vec!["c".to_string(), "d".to_string()]);
    assert!(!second.page_info.has_next_page);
}

#[test]
fn insert_below_cursor_shifts_nothing() {
    let first = page_of(&["a", "b", "c", "d"], 2, None).unwrap();
    assert_eq!(slugs(&first), vec!["a".to_string(), "b".to_string()]);
    let resume = Cursor::from_token(first.edges[1].cursor.token().clone());

    // "ab" arrives between the two requests, sorting between "a" and "b":
    // the second page neither repeats "b" nor skips anything after it.
    let second = page_of(&["a", "ab", "b", "c", "d"], 2, Some(&resume)).unwrap();
    assert_eq!(slugs(&second), vec!["c".to_string(), "d".to_string()]);
    assert!(!second.page_info.has_next_page);
}

#[test]
fn deleted_boundary_row_still_resumes() {
    let cursor = encode_key("b");
    let page = page_of(&["a", "c", "d"], 10, Some(&cursor)).unwrap();
    assert_eq!(slugs(&page), vec!["c".to_string(), "d".to_string()]);
    assert!(!page.page_info.has_next_page);
}

#[test]
fn exhaustion_visits_every_key_once_in_order() {
    let keys = ["a", "b", "c", "d"];
    let mut seen: Vec<String> = Vec::new();
    let mut after: Option<Cursor> = None;
    loop {
        let page = page_of(&keys, 1, after.as_ref()).unwrap();
        for e in &page.edges {
            seen.push(e.node.model.slug.clone());
        }
        if !page.page_info.has_next_page {
            break;
        }
        let last = page.edges.last().expect("a page with a next page has a row");
        after = Some(Cursor::from_token(last.cursor.token().clone()));
    }
    assert_eq!(seen, vec!["a".to_string(), "b".to_string(), "c".to_string(), "d".to_string()]);
}

#[test]
fn empty_collection_gives_empty_page() {
    let page = page_of(&[], 5, None).unwrap();
    assert_eq!(page.edges.len(), 0);
    assert!(!page.page_info.has_next_page);
}

#[test]
fn first_zero_is_rejected() {
    assert!(matches!(page_of(&["a", "b"], 0, None), Err(PaginationError::InvalidPageSize)));
}

#[test]
fn first_above_maximum_is_rejected() {
    let r = issuetrack::api::projects_connection(listed(&["a", "b"]), 101, None, 100);
    assert!(matches!(r, Err(PaginationError::InvalidPageSize)));
}

#[test]
fn bad_cursor_is_rejected_not_fatal() {
    let bad = Cursor::from_token(String::from("***"));
    assert!(matches!(page_of(&["a", "b"], 1, Some(&bad)), Err(PaginationError::InvalidCursor)));
}

#[test]
fn page_size_error_outranks_cursor_error() {
    let bad = Cursor::from_token(String::from("***"));
    assert!(matches!(page_of(&["a", "b"], 0, Some(&bad)), Err(PaginationError::InvalidPageSize)));
}

#[test]
fn lookahead_sees_exactly_one_row_past_the_page() {
    let exact = page_of(&["a", "b"], 2, None).unwrap();
    assert!(!exact.page_info.has_next_page);
    let more = page_of(&["a", "b", "c"], 2, None).unwrap();
    assert!(more.page_info.has_next_page);
}

#[test]
fn page_after_key_takes_rows_above_the_key() {
    let r = page_after_key(listed(&["a", "b", "c"]), 1, Some(&String::from("a")), 100).unwrap();
    assert_eq!(r.rows.len(), 1);
    assert_eq!(r.rows[0].slug, "b");
    assert!(r.has_next_page);
    assert!(!r.has_previous_page);
}

#[test]
fn assemble_attaches_the_key_token_to_each_row() {
    let page = Page { rows: listed(&["x", "y"]), has_next_page: true, has_previous_page: false };
    let wrapped: Vec<issuetrack::api::Project> =
        page.rows.into_iter().map(issuetrack::api::Project::new).collect();
    let page = Page { rows: wrapped, has_next_page: true, has_previous_page: false };
    let conn = assemble(page);
    assert_eq!(conn.edges.len(), 2);
    assert_eq!(conn.edges[0].cursor.token(), encode_key("x").token());
    assert_eq!(conn.edges[1].cursor.token(), encode_key("y").token());
    assert!(conn.page_info.has_next_page);
}

#[test]
fn users_listing_paginates_by_username() {
    let users: Vec<issuetrack::models::User> = ["ann", "bob", "cid"]
        .iter()
        .enumerate()
        .map(|(i, name)| issuetrack::models::User {
            id: i as i32,
            username: String::from(*name),
            iterations: 1,
            salt: vec![0u8; 16],
            credential: vec![0u8; 32],
        })
        .collect();
    let first = issuetrack::api::users_connection(users, 2, None, 100).unwrap();
    let names: Vec<String> =
        first.edges.iter().map(|e| e.node.model.username.clone()).collect();
    assert_eq!(names, vec!["ann".to_string(), "bob".to_string()]);
    assert!(first.page_info.has_next_page);
}

#[test]
fn generic_paginate_works_on_bare_models() {
    let conn = paginate(listed(&["a", "b", "c"]), 2, None, 100).unwrap();
    assert_eq!(conn.edges.len(), 2);
    assert_eq!(conn.edges[0].node.slug, "a");
    assert_eq!(conn.edges[1].node.slug, "b");
    assert!(conn.page_info.has_next_page);
}
