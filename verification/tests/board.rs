use rust_overflow::errors::ErrorKind;
use rust_overflow::store::Store;

/// A store with two tags and one registered user, ready for content.
fn seeded() -> Store {
    let mut store = Store::new();
    assert_eq!(store.add_tag("rust".to_string(), "the language".to_string()).unwrap(), 1);
    assert_eq!(store.add_tag("web".to_string(), "the platform".to_string()).unwrap(), 2);
    let login = store.register("alice".to_string(), "pw".to_string()).unwrap();
    assert_eq!(login.id, 1);
    store
}

#[test]
fn created_question_reads_back_with_tags_and_no_answers() {
    let mut store = seeded();
    let qid = store
        .new_question(1, "T".to_string(), "B".to_string(), vec![1, 2], 100)
        .unwrap();
    assert_eq!(qid, 1);

    let q = store.question(qid).unwrap();
    assert_eq!(q.title, "T");
    assert_eq!(q.text, "B");
    assert_eq!(q.score, 0);
    assert_eq!(q.author, "alice");
    assert_eq!(q.num_answers, 0);
    assert!(!q.answered);
    let names: Vec<&str> = q.tags.iter().map(|t| t.name.as_str()).collect();
    assert_eq!(names, vec!["rust", "web"]);
}

#[test]
fn creating_a_question_with_unknown_tag_persists_nothing() {
    let mut store = seeded();
    let err = store
        .new_question(1, "T".to_string(), "B".to_string(), vec![9999], 100)
        .unwrap_err();
    assert_eq!(err.kind, ErrorKind::Validation);
    assert_eq!(err.message, "Invalid tag id supplied");

    // atomicity: the question row is not visible either
    assert!(store.newest_questions().is_empty());
    let err = store.question(1).unwrap_err();
    assert_eq!(err.kind, ErrorKind::NotFound);
    assert_eq!(err.message, "This question does not exist");
}

#[test]
fn creating_a_question_with_unknown_author_persists_nothing() {
    let mut store = seeded();
    let err = store
        .new_question(42, "T".to_string(), "B".to_string(), vec![1], 100)
        .unwrap_err();
    assert_eq!(err.kind, ErrorKind::Validation);
    assert!(store.newest_questions().is_empty());
}

#[test]
fn ten_votes_on_one_answer_add_up_to_ten() {
    let mut store = seeded();
    store.new_question(1, "T".to_string(), "B".to_string(), vec![1], 100).unwrap();
    store.new_answer(1, 1, "try this".to_string(), 101).unwrap();
    for _ in 0..10 {
        store.update_answer_score(1, 1).unwrap();
    }
    let answers = store.answers(1);
    assert_eq!(answers.len(), 1);
    assert_eq!(answers[0].score, 10);
}

#[test]
fn question_votes_move_the_score_both_ways() {
    let mut store = seeded();
    store.new_question(1, "T".to_string(), "B".to_string(), vec![1], 100).unwrap();
    store.update_question_score(1, 1).unwrap();
    store.update_question_score(1, 1).unwrap();
    store.update_question_score(1, -1).unwrap();
    assert_eq!(store.question(1).unwrap().score, 1);

    let err = store.update_question_score(99, 1).unwrap_err();
    assert_eq!(err.kind, ErrorKind::Validation);
    assert_eq!(err.message, "Invalid question id supplied");
}

#[test]
fn score_overflow_is_an_internal_failure() {
    let mut store = seeded();
    store.new_question(1, "T".to_string(), "B".to_string(), vec![1], 100).unwrap();
    store.new_answer(1, 1, "a".to_string(), 101).unwrap();
    store.update_answer_score(1, 1).unwrap();
    let err = store.update_answer_score(1, i32::MAX).unwrap_err();
    assert_eq!(err.kind, ErrorKind::Internal);
    // the failed vote left the score alone
    assert_eq!(store.answers(1)[0].score, 1);
}

#[test]
fn accepting_an_answer_marks_the_question_answered() {
    let mut store = seeded();
    store.new_question(1, "T".to_string(), "B".to_string(), vec![1], 100).unwrap();
    store.new_answer(1, 1, "first".to_string(), 101).unwrap();
    store.new_answer(1, 1, "second".to_string(), 102).unwrap();
    assert!(!store.question(1).unwrap().answered);

    store.mark_solved(2).unwrap();
    let answers = store.answers(1);
    assert_eq!(answers.len(), 2);
    assert!(answers.iter().any(|a| a.id == 2 && a.accepted));
    assert!(answers.iter().any(|a| a.id == 1 && !a.accepted));
    assert!(store.question(1).unwrap().answered);
    assert_eq!(store.question(1).unwrap().num_answers, 2);

    let err = store.mark_solved(99).unwrap_err();
    assert_eq!(err.kind, ErrorKind::Validation);
    assert_eq!(err.message, "Invalid answer id supplied");
}

#[test]
fn answers_come_back_highest_voted_first_ties_by_age() {
    let mut store = seeded();
    store.new_question(1, "T".to_string(), "B".to_string(), vec![1], 100).unwrap();
    store.new_answer(1, 1, "a1".to_string(), 101).unwrap();
    store.new_answer(1, 1, "a2".to_string(), 102).unwrap();
    store.new_answer(1, 1, "a3".to_string(), 103).unwrap();
    store.new_answer(1, 1, "a4".to_string(), 104).unwrap();
    // a2 gets two votes, a3 one, a4 one: a4 ties a3 and is younger
    store.update_answer_score(2, 1).unwrap();
    store.update_answer_score(2, 1).unwrap();
    store.update_answer_score(3, 1).unwrap();
    store.update_answer_score(4, 1).unwrap();

    let answers = store.answers(1);
    let order: Vec<i32> = answers.iter().map(|a| a.id).collect();
    assert_eq!(order, vec![2, 3, 4, 1]);
    assert_eq!(answers[0].author, "alice");
    assert_eq!(answers[0].text, "a2");
}

#[test]
fn answering_an_unknown_question_persists_nothing() {
    let mut store = seeded();
    let err = store.new_answer(1, 42, "into the void".to_string(), 100).unwrap_err();
    assert_eq!(err.kind, ErrorKind::Validation);
    assert_eq!(err.message, "Invalid question id supplied");
}

#[test]
fn newest_questions_come_newest_first() {
    let mut store = seeded();
    store.new_question(1, "oldest".to_string(), "b".to_string(), vec![1], 100).unwrap();
    store.new_question(1, "middle".to_string(), "b".to_string(), vec![1], 200).unwrap();
    store.new_question(1, "newest".to_string(), "b".to_string(), vec![2], 300).unwrap();

    let titles: Vec<String> =
        store.newest_questions().iter().map(|q| q.title.clone()).collect();
    assert_eq!(titles, vec!["newest", "middle", "oldest"]);
}

#[test]
fn tag_filter_deduplicates_and_keeps_newest_first() {
    let mut store = seeded();
    store.new_question(1, "q-rust".to_string(), "b".to_string(), vec![1], 100).unwrap();
    store.new_question(1, "q-web".to_string(), "b".to_string(), vec![2], 200).unwrap();
    store.new_question(1, "q-both".to_string(), "b".to_string(), vec![1, 2], 300).unwrap();

    let rust_only: Vec<String> = store
        .questions_with_tag(vec!["rust".to_string()])
        .iter()
        .map(|q| q.title.clone())
        .collect();
    assert_eq!(rust_only, vec!["q-both", "q-rust"]);

    // a question matching both requested tags appears exactly once
    let both: Vec<String> = store
        .questions_with_tag(vec!["rust".to_string(), "web".to_string()])
        .iter()
        .map(|q| q.title.clone())
        .collect();
    assert_eq!(both, vec!["q-both", "q-web", "q-rust"]);
}

#[test]
fn resolving_a_partial_tag_set_fails_outright() {
    let mut store = Store::new();
    store.add_tag("real".to_string(), "exists".to_string()).unwrap();

    let err = store
        .tags_with_names(vec!["real".to_string(), "fake".to_string()])
        .unwrap_err();
    assert_eq!(err.kind, ErrorKind::Validation);
    assert_eq!(err.message, "Invalid Tag");

    let found = store.tags_with_names(vec!["real".to_string()]).unwrap();
    assert_eq!(found.len(), 1);
    assert_eq!(found[0].name, "real");
    assert_eq!(found[0].description, "exists");
}

#[test]
fn all_tags_lists_the_catalog_in_order() {
    let store = seeded();
    let tags = store.all_tags();
    let names: Vec<&str> = tags.iter().map(|t| t.name.as_str()).collect();
    assert_eq!(names, vec!["rust", "web"]);
    assert_eq!(tags[0].id, 1);
    assert_eq!(tags[1].id, 2);

    let mut other = Store::new();
    assert!(other.all_tags().is_empty());
    let err = other.add_tag("x".to_string(), "d".to_string()).unwrap();
    assert_eq!(err, 1);
    let dup = other.add_tag("x".to_string(), "again".to_string()).unwrap_err();
    assert_eq!(dup.kind, ErrorKind::Validation);
}

#[test]
fn empty_board_has_nothing_to_list() {
    let store = Store::new();
    assert!(store.newest_questions().is_empty());
    assert!(store.questions_with_tag(vec!["rust".to_string()]).is_empty());
    assert!(store.answers(1).is_empty());
    assert_eq!(store.num_answers(1), 0);
    assert!(!store.answered(1));
    assert!(store.tags_with_names(vec![]).unwrap().is_empty());
}
