use nanoleaf_aws_terminator::display::Display;
use nanoleaf_aws_terminator::resource::AWSResource;

fn instance(id: &str) -> AWSResource {
    AWSResource::Instance(id.to_string())
}

fn table(name: &str) -> AWSResource {
    AWSResource::Table(name.to_string())
}

fn bucket(name: &str) -> AWSResource {
    AWSResource::Bucket(name.to_string())
}

#[test]
fn new_display_is_dark() {
    let display = Display::new();
    assert!(display.iter().is_empty());
    assert_eq!(display.get_by_left(1), None);
    assert!(!display.contains_right(&instance("i-1")));
}

#[test]
fn insert_pairs_panel_and_resource() {
    let mut display = Display::new();
    display.insert(7, &instance("i-1"));
    display.insert(8, &table("users"));
    display.insert(9, &bucket("logs"));
    assert_eq!(display.get_by_left(7), Some(instance("i-1")));
    assert_eq!(display.get_by_left(8), Some(table("users")));
    assert_eq!(display.get_by_left(9), Some(bucket("logs")));
    assert_eq!(display.get_by_left(10), None);
}

#[test]
fn services_do_not_mix() {
    let mut display = Display::new();
    display.insert(1, &table("same"));
    assert!(display.contains_right(&table("same")));
    assert!(!display.contains_right(&bucket("same")));
    assert!(!display.contains_right(&instance("same")));
    display.insert(2, &bucket("same"));
    assert_eq!(display.get_by_left(1), Some(table("same")));
    assert_eq!(display.get_by_left(2), Some(bucket("same")));
}

#[test]
fn insert_overwrites_left() {
    let mut display = Display::new();
    display.insert(1, &instance("a"));
    display.insert(1, &instance("b"));
    assert_eq!(display.iter(), vec![(1, instance("b"))]);
    assert!(!display.contains_right(&instance("a")));
}

#[test]
fn insert_overwrites_right() {
    let mut display = Display::new();
    display.insert(1, &instance("a"));
    display.insert(2, &instance("a"));
    assert_eq!(display.iter(), vec![(2, instance("a"))]);
    assert_eq!(display.get_by_left(1), None);
}

#[test]
fn insert_overwrites_both() {
    let mut display = Display::new();
    display.insert(1, &instance("a"));
    display.insert(2, &instance("b"));
    display.insert(1, &instance("b"));
    assert_eq!(display.iter(), vec![(1, instance("b"))]);
}

#[test]
fn remove_turns_panel_off() {
    let mut display = Display::new();
    display.insert(1, &instance("a"));
    display.insert(2, &table("b"));
    display.remove_by_left(1);
    assert_eq!(display.get_by_left(1), None);
    assert!(!display.contains_right(&instance("a")));
    assert_eq!(display.iter(), vec![(2, table("b"))]);
    display.remove_by_left(1);
    assert_eq!(display.iter(), vec![(2, table("b"))]);
}

#[test]
fn iter_names_every_pair_once() {
    let mut display = Display::new();
    display.insert(3, &instance("a"));
    display.insert(1, &table("b"));
    display.insert(2, &bucket("c"));
    let mut order = display.iter();
    order.sort_by_key(|pair| pair.0);
    assert_eq!(order, vec![(1, table("b")), (2, bucket("c")), (3, instance("a"))]);
}

#[test]
fn clone_keeps_resource() {
    assert_eq!(instance("a").clone(), instance("a"));
    assert_eq!(table("a").clone(), table("a"));
    assert_eq!(bucket("a").clone(), bucket("a"));
}
