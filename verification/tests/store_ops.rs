use story_store::models::{DbError, PagePatch};
use story_store::store::Store;

#[test]
fn fresh_store_scenario() {
    let mut st = Store::new();
    let sid = st.add_story("Test".to_string());
    assert_eq!(sid, 1);

    let listings = st.get_story_list();
    assert_eq!(listings.len(), 1);
    assert_eq!(listings[0].id, 1);
    assert_eq!(listings[0].title, "Test");

    let story = st.get_story(1).unwrap();
    assert_eq!(story.id, 1);
    assert_eq!(story.title, "Test");
    let pid = story.start_page.unwrap();
    assert_eq!(story.pages.len(), 1);
    assert_eq!(story.pages[0].id, pid);
    assert_eq!(story.pages[0].story_id, 1);
    assert_eq!(story.pages[0].name, "Start");
    assert_eq!(story.pages[0].body, "");
    assert_eq!(story.pages[0].options.len(), 0);
}

#[test]
fn add_story_creates_one_story_and_one_start_page() {
    let mut st = Store::new();
    let s1 = st.add_story("One".to_string());
    let s2 = st.add_story("Two".to_string());
    assert_eq!(s1, 1);
    assert_eq!(s2, 2);
    assert_eq!(st.get_story_list().len(), 2);

    let one = st.get_story(s1).unwrap();
    let two = st.get_story(s2).unwrap();
    assert_eq!(one.pages.len(), 1);
    assert_eq!(two.pages.len(), 1);
    assert_eq!(one.start_page, Some(one.pages[0].id));
    assert_eq!(two.start_page, Some(two.pages[0].id));
    assert_eq!(one.pages[0].name, "Start");
    assert_eq!(two.pages[0].name, "Start");
    assert_eq!(one.pages[0].body, "");
    assert_eq!(two.pages[0].body, "");
}

#[test]
fn patch_name_leaves_body_untouched() {
    let mut st = Store::new();
    let sid = st.add_story("S".to_string());
    let pid = st.create_page(sid, "A page".to_string());
    let filled = PagePatch { id: pid, name: None, body: Some("Once upon a time".to_string()) };
    st.patch_page(pid, &filled).unwrap();

    let patch = PagePatch { id: pid, name: Some("X".to_string()), body: None };
    st.patch_page(pid, &patch).unwrap();
    let page = st.get_page(pid).unwrap();
    assert_eq!(page.name, "X");
    assert_eq!(page.body, "Once upon a time");
}

#[test]
fn patch_body_leaves_name_untouched() {
    let mut st = Store::new();
    let sid = st.add_story("S".to_string());
    let pid = st.create_page(sid, "A page".to_string());

    let patch = PagePatch { id: pid, name: None, body: Some("Y".to_string()) };
    st.patch_page(pid, &patch).unwrap();
    let page = st.get_page(pid).unwrap();
    assert_eq!(page.name, "A page");
    assert_eq!(page.body, "Y");
}

#[test]
fn patch_with_both_fields_changes_both() {
    let mut st = Store::new();
    let sid = st.add_story("S".to_string());
    let pid = st.create_page(sid, "Old name".to_string());

    let patch =
        PagePatch { id: pid, name: Some("New name".to_string()), body: Some("New body".to_string()) };
    st.patch_page(pid, &patch).unwrap();
    let page = st.get_page(pid).unwrap();
    assert_eq!(page.name, "New name");
    assert_eq!(page.body, "New body");
    assert_eq!(page.story_id, sid);
}

#[test]
fn patch_touches_only_the_addressed_page() {
    let mut st = Store::new();
    let sid = st.add_story("S".to_string());
    let p1 = st.create_page(sid, "First".to_string());
    let p2 = st.create_page(sid, "Second".to_string());

    let patch = PagePatch { id: p1, name: Some("Renamed".to_string()), body: None };
    st.patch_page(p1, &patch).unwrap();
    assert_eq!(st.get_page(p1).unwrap().name, "Renamed");
    assert_eq!(st.get_page(p2).unwrap().name, "Second");
}

#[test]
fn empty_patch_is_rejected_and_changes_nothing() {
    let mut st = Store::new();
    let sid = st.add_story("S".to_string());
    let pid = st.create_page(sid, "Keep me".to_string());

    let empty = PagePatch { id: pid, name: None, body: None };
    assert_eq!(st.patch_page(pid, &empty), Err(DbError::InvalidArgument));

    let page = st.get_page(pid).unwrap();
    assert_eq!(page.name, "Keep me");
    assert_eq!(page.body, "");
}

#[test]
fn patch_of_absent_page_reports_not_found() {
    let mut st = Store::new();
    let patch = PagePatch { id: 42, name: Some("X".to_string()), body: None };
    assert_eq!(st.patch_page(42, &patch), Err(DbError::NotFound));
}

#[test]
fn delete_of_absent_story_reports_not_found() {
    let mut st = Store::new();
    assert_eq!(st.delete_story(7), Err(DbError::NotFound));
    let sid = st.add_story("S".to_string());
    assert_eq!(st.delete_story(sid), Ok(()));
    assert_eq!(st.delete_story(sid), Err(DbError::NotFound));
    assert!(st.get_story(sid).is_err());
}

#[test]
fn get_page_of_absent_id_reports_not_found() {
    let mut st = Store::new();
    assert_eq!(st.get_page(5).unwrap_err(), DbError::NotFound);
    st.add_story("S".to_string());
    assert_eq!(st.get_page(999).unwrap_err(), DbError::NotFound);
}

#[test]
fn choices_round_trip_through_get_page() {
    let mut st = Store::new();
    let sid = st.add_story("S".to_string());
    let pid = st.create_page(sid, "Crossroads".to_string());
    let t1 = st.create_page(sid, "Left".to_string());
    let t2 = st.create_page(sid, "Right".to_string());
    let t3 = st.create_page(sid, "Back".to_string());

    st.create_choice(pid, "go left".to_string(), t1);
    st.create_choice(pid, "go right".to_string(), t2);
    st.create_choice(pid, "turn back".to_string(), t3);

    let page = st.get_page(pid).unwrap();
    assert_eq!(page.options.len(), 3);
    assert_eq!(page.options[0].text, "go left");
    assert_eq!(page.options[0].target_page, t1);
    assert_eq!(page.options[0].page_id, pid);
    assert_eq!(page.options[1].text, "go right");
    assert_eq!(page.options[1].target_page, t2);
    assert_eq!(page.options[2].text, "turn back");
    assert_eq!(page.options[2].target_page, t3);
}

#[test]
fn story_pages_come_back_ascending_by_id() {
    let mut st = Store::new();
    let sid = st.add_story("S".to_string());
    let p1 = st.create_page(sid, "One".to_string());
    let p2 = st.create_page(sid, "Two".to_string());
    let p3 = st.create_page(sid, "Three".to_string());

    let story = st.get_story(sid).unwrap();
    let ids: Vec<i64> = story.pages.iter().map(|p| p.id).collect();
    let start = story.start_page.unwrap();
    assert_eq!(ids, vec![start, p1, p2, p3]);
    assert!(p1 < p2 && p2 < p3);
}
