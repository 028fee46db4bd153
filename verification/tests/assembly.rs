use story_store::assemble::{assemble_story, PageChoices};
use story_store::models::{Choice, PageRow};

fn row(id: i64, story_id: i64, name: &str) -> PageRow {
    PageRow { id, story_id, name: name.to_string(), body: String::new() }
}

fn choice(id: i64, page_id: i64, text: &str, target_page: i64) -> Choice {
    Choice { id, page_id, text: text.to_string(), target_page }
}

fn keyed(page_id: i64, choices: Vec<Choice>) -> PageChoices {
    PageChoices { page_id, choices }
}

#[test]
fn pages_are_ordered_ascending_by_id() {
    let rows = vec![row(3, 1, "C"), row(1, 1, "A"), row(2, 1, "B")];
    let sets = vec![keyed(1, vec![]), keyed(2, vec![]), keyed(3, vec![])];
    let story = assemble_story(1, "S".to_string(), Some(1), rows, sets);
    let ids: Vec<i64> = story.pages.iter().map(|p| p.id).collect();
    assert_eq!(ids, vec![1, 2, 3]);
    assert_eq!(story.pages[0].name, "A");
    assert_eq!(story.pages[1].name, "B");
    assert_eq!(story.pages[2].name, "C");
}

#[test]
fn assembly_does_not_depend_on_result_arrival_order() {
    let rows = vec![row(1, 1, "A"), row(2, 1, "B"), row(3, 1, "C")];
    let c1 = vec![choice(10, 1, "to B", 2)];
    let c2 = vec![choice(11, 2, "to C", 3), choice(12, 2, "to A", 1)];
    let c3: Vec<Choice> = vec![];

    let submission_order = vec![
        keyed(1, c1.clone()),
        keyed(2, c2.clone()),
        keyed(3, c3.clone()),
    ];
    let completion_order = vec![keyed(3, c3), keyed(2, c2), keyed(1, c1)];

    let a = assemble_story(1, "S".to_string(), Some(1), rows.clone(), submission_order);
    let b = assemble_story(1, "S".to_string(), Some(1), rows, completion_order);
    assert_eq!(a.pages, b.pages);
    assert_eq!(a.pages[0].options.len(), 1);
    assert_eq!(a.pages[1].options.len(), 2);
    assert_eq!(a.pages[1].options[0].text, "to C");
    assert_eq!(a.pages[2].options.len(), 0);
}

#[test]
fn page_without_fetched_result_gets_no_choices() {
    let rows = vec![row(5, 2, "Lonely")];
    let story = assemble_story(2, "T".to_string(), Some(5), rows, vec![]);
    assert_eq!(story.id, 2);
    assert_eq!(story.title, "T");
    assert_eq!(story.start_page, Some(5));
    assert_eq!(story.pages.len(), 1);
    assert_eq!(story.pages[0].options.len(), 0);
}

#[test]
fn story_without_pages_assembles_empty() {
    let story = assemble_story(9, "Empty".to_string(), None, vec![], vec![]);
    assert_eq!(story.id, 9);
    assert_eq!(story.start_page, None);
    assert_eq!(story.pages.len(), 0);
}
