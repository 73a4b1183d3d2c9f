use nanoleaf_aws_terminator::board::{discover, discover_all, place_at, release};
use nanoleaf_aws_terminator::display::Display;
use nanoleaf_aws_terminator::resource::AWSResource;

fn instance(id: &str) -> AWSResource {
    AWSResource::Instance(id.to_string())
}

fn instances(ids: &[&str]) -> Vec<AWSResource> {
    ids.iter().map(|id| instance(id)).collect()
}

/// The panels of the board, lit and free, in ascending order.
fn panels(display: &Display, available: &[u16]) -> Vec<u16> {
    let mut all: Vec<u16> = display.iter().iter().map(|pair| pair.0).collect();
    all.extend_from_slice(available);
    all.sort();
    all
}

#[test]
fn place_at_swaps_the_last_panel_in() {
    let mut display = Display::new();
    let mut available = vec![10, 20, 30, 40];
    assert_eq!(place_at(&mut display, &mut available, &instance("a"), 1), 20);
    assert_eq!(available, vec![10, 40, 30]);
    assert_eq!(display.iter(), vec![(20, instance("a"))]);
    assert_eq!(place_at(&mut display, &mut available, &instance("b"), 2), 30);
    assert_eq!(available, vec![10, 40]);
}

#[test]
fn place_at_takes_a_panel_that_is_lit() {
    let mut display = Display::new();
    display.insert(5, &instance("old"));
    let mut available = vec![5];
    assert_eq!(place_at(&mut display, &mut available, &instance("new"), 0), 5);
    assert!(available.is_empty());
    assert_eq!(display.iter(), vec![(5, instance("new"))]);
}

#[test]
fn discover_takes_the_only_panel() {
    let mut display = Display::new();
    let mut available = vec![77];
    assert_eq!(discover(&mut display, &mut available, &instance("a")), Some(77));
    assert!(available.is_empty());
    assert_eq!(display.get_by_left(77), Some(instance("a")));
}

#[test]
fn discover_passes_over_what_is_shown() {
    let mut display = Display::new();
    display.insert(1, &instance("a"));
    let mut available = vec![];
    assert_eq!(discover(&mut display, &mut available, &instance("a")), None);
    assert_eq!(display.iter(), vec![(1, instance("a"))]);
    assert!(available.is_empty());
}

#[test]
fn discover_picks_one_of_the_free_panels() {
    for _ in 0..200 {
        let mut display = Display::new();
        let mut available = vec![1, 2, 3];
        let panel = discover(&mut display, &mut available, &instance("a")).unwrap();
        assert!([1, 2, 3].contains(&panel));
        assert_eq!(available.len(), 2);
        assert!(!available.contains(&panel));
        assert_eq!(display.get_by_left(panel), Some(instance("a")));
    }
}

#[test]
fn every_free_panel_comes_up() {
    let mut seen = [false; 4];
    for _ in 0..2000 {
        let mut display = Display::new();
        let mut available = vec![0, 1, 2, 3];
        let panel = discover(&mut display, &mut available, &instance("a")).unwrap();
        seen[panel as usize] = true;
    }
    assert_eq!(seen, [true; 4]);
}

#[test]
fn discover_all_shows_every_resource_once() {
    let mut display = Display::new();
    display.insert(9, &instance("a"));
    let mut available = vec![1, 2, 3];
    let list = instances(&["a", "b", "b", "c"]);
    let (found, missed) = discover_all(&mut display, &mut available, &list);
    assert_eq!(missed, None);
    assert_eq!(found.len(), 2);
    assert_eq!(found[0].1, instance("b"));
    assert_eq!(found[1].1, instance("c"));
    assert_eq!(display.get_by_left(9), Some(instance("a")));
    assert_eq!(display.get_by_left(found[0].0), Some(instance("b")));
    assert_eq!(display.get_by_left(found[1].0), Some(instance("c")));
    assert_eq!(available.len(), 1);
    assert_eq!(panels(&display, &available), vec![1, 2, 3, 9]);
}

#[test]
fn discover_all_again_finds_nothing() {
    let mut display = Display::new();
    let mut available = vec![1, 2];
    let list = instances(&["a", "b"]);
    discover_all(&mut display, &mut available, &list);
    let mut before = display.iter();
    before.sort_by_key(|pair| pair.0);
    assert_eq!(discover_all(&mut display, &mut available, &list), (vec![], None));
    let mut after = display.iter();
    after.sort_by_key(|pair| pair.0);
    assert_eq!(before, after);
    assert!(available.is_empty());
}

#[test]
fn release_frees_the_panel() {
    let mut display = Display::new();
    display.insert(4, &instance("a"));
    let mut available = vec![1, 2];
    release(&mut display, &mut available, 4);
    assert_eq!(available, vec![1, 2, 4]);
    assert_eq!(display.get_by_left(4), None);
}

#[test]
fn release_undoes_place() {
    let mut display = Display::new();
    display.insert(9, &instance("z"));
    let mut available = vec![1, 2, 3];
    let panel = place_at(&mut display, &mut available, &instance("a"), 0);
    release(&mut display, &mut available, panel);
    assert_eq!(display.iter(), vec![(9, instance("z"))]);
    available.sort();
    assert_eq!(available, vec![1, 2, 3]);
}

#[test]
fn panels_are_neither_lost_nor_doubled() {
    let mut display = Display::new();
    let mut available = vec![1, 2, 3, 4, 5];
    let mut round = 0;
    while round < 50 {
        let id = format!("i-{}", round);
        discover(&mut display, &mut available, &instance(&id));
        if round % 3 == 2 {
            let lit = display.iter()[0].0;
            release(&mut display, &mut available, lit);
        }
        if available.is_empty() {
            let lit = display.iter()[0].0;
            release(&mut display, &mut available, lit);
        }
        assert_eq!(panels(&display, &available), vec![1, 2, 3, 4, 5]);
        round += 1;
    }
}

#[test]
fn discover_all_needs_a_panel_for_every_newcomer() {
    let cases = [
        (vec![1], vec![], None),
        (vec![1], vec!["a", "b", "a", "b"], None),
        (vec![1], vec!["b", "c"], Some("c")),
        (vec![], vec!["a"], None),
        (vec![], vec!["b"], Some("b")),
        (vec![1, 2], vec!["b", "c", "b", "d", "e"], Some("d")),
    ];
    for (mut available, list, out_of_panels_at) in cases {
        let mut display = Display::new();
        display.insert(9, &instance("a"));
        let (_, missed) = discover_all(&mut display, &mut available, &instances(&list));
        assert_eq!(missed, out_of_panels_at.map(instance));
        if out_of_panels_at.is_some() {
            assert!(available.is_empty());
            assert!(!display.contains_right(&missed.unwrap()));
        }
    }
}

#[test]
fn discover_all_keeps_what_it_found_before_it_ran_out() {
    let mut display = Display::new();
    let mut available = vec![4];
    let list = instances(&["a", "b", "a"]);
    let (found, missed) = discover_all(&mut display, &mut available, &list);
    assert_eq!(found, vec![(4, instance("a"))]);
    assert_eq!(missed, Some(instance("b")));
    assert_eq!(display.iter(), vec![(4, instance("a"))]);
}

#[test]
fn discover_all_where_a_panel_is_held_twice() {
    // the same newcomer three times needs one panel
    let mut display = Display::new();
    let mut available = vec![1, 1];
    let (found, missed) = discover_all(&mut display, &mut available, &instances(&["x", "x", "x"]));
    assert_eq!(found, vec![(1, instance("x"))]);
    assert_eq!(missed, None);
    assert_eq!(available, vec![1]);

    // the second newcomer takes the panel of the first
    let mut display = Display::new();
    let mut available = vec![1, 1];
    let (_, missed) = discover_all(&mut display, &mut available, &instances(&["x", "y", "x"]));
    assert_eq!(missed, Some(instance("x")));
    assert_eq!(display.iter(), vec![(1, instance("y"))]);

    // a panel that is both lit and free is taken from what it stands for
    let mut display = Display::new();
    display.insert(1, &instance("x"));
    let mut available = vec![1];
    let (_, missed) = discover_all(&mut display, &mut available, &instances(&["y", "x"]));
    assert_eq!(missed, Some(instance("x")));
}

#[test]
fn chance_decides_where_one_panel_is_held_twice() {
    let (mut enough, mut out) = (0, 0);
    for _ in 0..500 {
        let mut display = Display::new();
        let mut available = vec![1, 1, 2];
        let list = instances(&["x", "y", "x", "z"]);
        let (found, missed) = discover_all(&mut display, &mut available, &list);
        assert_eq!(found.len(), 3);
        match missed {
            None => enough += 1,
            Some(resource) => {
                assert_eq!(resource, instance("z"));
                assert_eq!(found[2].1, instance("x"));
                out += 1;
            }
        }
    }
    assert!(enough > 0 && out > 0);
}
