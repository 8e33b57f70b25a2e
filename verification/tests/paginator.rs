use pictures::paginator::{Action, Pic, PicError, Selection};

fn names(v: &[&str]) -> Vec<String> {
    v.iter().map(|s| s.to_string()).collect()
}

fn three(action: Action, page: &str) -> Pic {
    Pic::new(names(&["a.jpg", "b.jpg", "c.jpg"]), Some(page.to_string()), action)
}

fn selected(r: Result<Selection, PicError>) -> Selection {
    match r {
        Ok(sel) => sel,
        Err(e) => panic!("expected a selection, got {:?}", e),
    }
}

#[test]
fn action_parse_names() {
    assert_eq!(Action::parse(&"prev".to_string()), Action::Prev);
    assert_eq!(Action::parse(&"next".to_string()), Action::Next);
    assert_eq!(Action::parse(&"rand".to_string()), Action::Rand);
    assert_eq!(Action::parse(&"".to_string()), Action::Other);
    assert_eq!(Action::parse(&"NEXT".to_string()), Action::Other);
}

#[test]
fn new_filters_scan_and_reads_page() {
    let scanned = names(&["x.txt", "a.jpg", "b.jpeg", "sub.d/c.jpg", ".jpg"]);
    let pic = Pic::new(scanned, Some("2".to_string()), Action::Other);
    assert_eq!(pic.filelists, names(&["a.jpg", "sub.d/c.jpg"]));
    assert_eq!(pic.total, 2);
    assert_eq!(pic.currentpage, 2);
}

#[test]
fn new_defaults_page_to_one() {
    let pic = Pic::new(names(&["a.jpg"]), None, Action::Other);
    assert_eq!(pic.currentpage, 1);
    let pic = Pic::new(names(&["a.jpg"]), Some("rubbish".to_string()), Action::Other);
    assert_eq!(pic.currentpage, 1);
}

#[test]
fn default_returns_first_without_write() {
    let mut pic = three(Action::Other, "2");
    let sel = selected(pic.run(None));
    assert_eq!(sel.path, "a.jpg");
    assert!(sel.write.is_none());
    assert_eq!(pic.currentpage, 2);
}

#[test]
fn default_on_empty_list_is_no_selection() {
    let mut pic = Pic::new(Vec::new(), None, Action::Other);
    assert_eq!(pic.run(None), Err(PicError::NoSelection));
}

#[test]
fn next_from_page_two_selects_c() {
    let mut pic = three(Action::Next, "2");
    let sel = selected(pic.run(Some("b.jpg".to_string())));
    assert_eq!(sel.path, "c.jpg");
    assert_eq!(pic.currentpage, 3);
    let w = sel.write.expect("next must persist state");
    assert_eq!(w.page_text, "3");
    assert_eq!(w.name.as_deref(), Some("c.jpg"));
}

#[test]
fn prev_from_page_two_selects_a() {
    let mut pic = three(Action::Prev, "2");
    let sel = selected(pic.run(Some("b.jpg".to_string())));
    assert_eq!(sel.path, "a.jpg");
    assert_eq!(pic.currentpage, 1);
    let w = sel.write.expect("prev must persist state");
    assert_eq!(w.page_text, "1");
    assert_eq!(w.name.as_deref(), Some("a.jpg"));
}

#[test]
fn next_wraps_to_first() {
    let mut pic = three(Action::Next, "3");
    let sel = selected(pic.run(Some("c.jpg".to_string())));
    assert_eq!(sel.path, "a.jpg");
    assert_eq!(pic.currentpage, 1);
    assert_eq!(sel.write.unwrap().page_text, "1");
}

#[test]
fn prev_wraps_to_last() {
    let mut pic = three(Action::Prev, "1");
    let sel = selected(pic.run(Some("a.jpg".to_string())));
    assert_eq!(sel.path, "c.jpg");
    assert_eq!(pic.currentpage, 3);
    assert_eq!(sel.write.unwrap().page_text, "3");
}

#[test]
fn next_steps_every_page() {
    for p in 1..=5usize {
        let pic = Pic {
            filelists: names(&["1.jpg", "2.jpg", "3.jpg", "4.jpg", "5.jpg"]),
            total: 5,
            currentpage: p,
            action: Action::Next,
        };
        let expect = if p >= 5 { 1 } else { p + 1 };
        assert_eq!(pic.get_next_page(), expect);
    }
}

#[test]
fn prev_steps_every_page() {
    for p in 1..=5usize {
        let pic = Pic {
            filelists: names(&["1.jpg", "2.jpg", "3.jpg", "4.jpg", "5.jpg"]),
            total: 5,
            currentpage: p,
            action: Action::Prev,
        };
        let expect = if p <= 1 { 5 } else { p - 1 };
        assert_eq!(pic.get_pre_page(), expect);
    }
}

#[test]
fn next_ignores_persisted_page_and_follows_name() {
    let mut pic = three(Action::Next, "999");
    let sel = selected(pic.run(Some("a.jpg".to_string())));
    assert_eq!(sel.path, "b.jpg");
    assert_eq!(pic.currentpage, 2);
}

#[test]
fn name_is_trimmed_before_lookup() {
    let mut pic = three(Action::Next, "1");
    let sel = selected(pic.run(Some("  b.jpg\n".to_string())));
    assert_eq!(sel.path, "c.jpg");
}

#[test]
fn lookup_failure_changes_nothing() {
    let mut pic = three(Action::Next, "2");
    assert_eq!(pic.run(Some("gone.jpg".to_string())), Err(PicError::CursorLookupFailed));
    assert_eq!(pic.currentpage, 2);
    assert_eq!(pic.filelists, names(&["a.jpg", "b.jpg", "c.jpg"]));

    let mut pic = three(Action::Prev, "2");
    assert_eq!(pic.run(Some("gone.jpg".to_string())), Err(PicError::CursorLookupFailed));
    assert_eq!(pic.currentpage, 2);
}

#[test]
fn missing_name_fails_lookup() {
    let mut pic = three(Action::Next, "2");
    assert_eq!(pic.run(None), Err(PicError::CursorLookupFailed));
    let mut pic = three(Action::Prev, "2");
    assert_eq!(pic.run(None), Err(PicError::CursorLookupFailed));
}

#[test]
fn duplicate_names_use_first_match() {
    let mut pic = Pic::new(
        names(&["a.jpg", "b.jpg", "a.jpg"]),
        Some("3".to_string()),
        Action::Next,
    );
    let sel = selected(pic.run(Some("a.jpg".to_string())));
    assert_eq!(sel.path, "b.jpg");
    assert_eq!(pic.currentpage, 2);
}

#[test]
fn rand_picks_from_the_list() {
    for _ in 0..50 {
        let mut pic = three(Action::Rand, "1");
        let sel = selected(pic.run(None));
        let k = pic
            .filelists
            .iter()
            .position(|f| *f == sel.path)
            .expect("the picked path must come from the list");
        assert_eq!(pic.currentpage, k);
        let w = sel.write.expect("rand must persist state");
        assert_eq!(w.page_text, k.to_string());
        if k >= 1 {
            assert_eq!(w.name.as_deref(), Some(pic.filelists[k - 1].as_str()));
        } else {
            assert!(w.name.is_none());
        }
    }
}

#[test]
fn rand_on_single_file() {
    let mut pic = Pic::new(names(&["only.jpg"]), None, Action::Rand);
    let sel = selected(pic.run(None));
    assert_eq!(sel.path, "only.jpg");
    let w = sel.write.unwrap();
    assert_eq!(w.page_text, "0");
    assert!(w.name.is_none());
}

#[test]
fn rand_on_empty_list_is_empty_collection() {
    let mut pic = Pic::new(Vec::new(), None, Action::Rand);
    assert_eq!(pic.run(None), Err(PicError::EmptyCollection));
}

#[test]
fn apply_rand_records_zero_based_page() {
    let mut pic = three(Action::Rand, "1");
    let sel = pic.apply_rand(2);
    assert_eq!(sel.path, "c.jpg");
    assert_eq!(pic.currentpage, 2);
    let w = sel.write.unwrap();
    assert_eq!(w.page_text, "2");
    assert_eq!(w.name.as_deref(), Some("b.jpg"));

    let mut pic = three(Action::Rand, "1");
    let sel = pic.apply_rand(0);
    assert_eq!(sel.path, "a.jpg");
    assert_eq!(sel.write.unwrap().name, None);
}

#[test]
fn empty_list_fails_every_nondefault_action() {
    let mut pic = Pic::new(Vec::new(), None, Action::Prev);
    assert_eq!(pic.run(Some("a.jpg".to_string())), Err(PicError::CursorLookupFailed));
    let mut pic = Pic::new(Vec::new(), None, Action::Next);
    assert_eq!(pic.run(Some("a.jpg".to_string())), Err(PicError::CursorLookupFailed));
    let mut pic = Pic::new(Vec::new(), None, Action::Rand);
    assert_eq!(pic.run(None), Err(PicError::EmptyCollection));
}
