use svg_diff::config::MatchingRules;
use svg_diff::diff::get_matching_ids;
use svg_diff::diff::matching_ids::MatchingIdGenerator;
use svg_diff::flat_tree::FlatTreeBuilder;
use svg_diff::svg_data::svg::SVG;
use svg_diff::svg_data::tag::Tag;

fn tag(name: &str, text: &str, args: Vec<(&str, &str)>) -> Tag {
    Tag::new(
        name.to_string(),
        text.to_string(),
        args.into_iter()
            .map(|(k, v)| (k.to_string(), v.to_string()))
            .collect(),
    )
    .unwrap()
}

fn doc(children: Vec<Tag>) -> SVG {
    let mut b = FlatTreeBuilder::new();
    b.start_element(tag("svg", "", vec![]));
    for c in children {
        b.start_end_element(c);
    }
    b.end_element();
    SVG { tags: b.build() }
}

#[test]
fn matching_pure_remove() {
    let origin = doc(vec![tag(
        "circle",
        "",
        vec![("id", "c"), ("cx", "50"), ("cy", "50"), ("r", "40")],
    )]);
    let target = doc(vec![]);
    let rules = MatchingRules::default();
    let mut g = MatchingIdGenerator::new();
    let (o, t) = get_matching_ids(&origin, &target, &rules, &mut g);
    // roots matched, the circle is unmatched and keeps its own id
    assert!(!o[0].as_ref().unwrap().no_match);
    assert!(!t[0].as_ref().unwrap().no_match);
    let c = o[1].as_ref().unwrap();
    assert!(c.no_match);
    assert_eq!(c.matching_id, "c");
}

#[test]
fn matching_pure_add() {
    let origin = doc(vec![
        tag("circle", "", vec![("cx", "20"), ("cy", "20"), ("r", "10")]),
        tag("circle", "", vec![("cx", "40"), ("cy", "40"), ("r", "10")]),
    ]);
    let target = doc(vec![
        tag("circle", "", vec![("cx", "20"), ("cy", "20"), ("r", "10")]),
        tag("circle", "", vec![("cx", "40"), ("cy", "40"), ("r", "10")]),
        tag("circle", "", vec![("id", "the_circle"), ("cx", "50"), ("cy", "50"), ("r", "40")]),
    ]);
    let rules = MatchingRules::default();
    let mut g = MatchingIdGenerator::new();
    let (o, t) = get_matching_ids(&origin, &target, &rules, &mut g);
    // both origin circles matched, exactly the new target circle unmatched
    assert!(o[1].as_ref().unwrap().origin_index == Some(1));
    assert!(!o[1].as_ref().unwrap().no_match);
    assert!(!o[2].as_ref().unwrap().no_match);
    let unmatched: Vec<_> = t.iter().flatten().filter(|s| s.no_match).collect();
    assert_eq!(unmatched.len(), 1);
    assert_eq!(unmatched[0].matching_id, "the_circle");
    assert_eq!(unmatched[0].target_index, Some(3));
}

#[test]
fn matching_text_change() {
    let origin = doc(vec![tag("text", "Hello", vec![])]);
    let target = doc(vec![tag("text", "Good Bye", vec![])]);
    let rules = MatchingRules::default();
    let mut g = MatchingIdGenerator::new();
    let (o, t) = get_matching_ids(&origin, &target, &rules, &mut g);
    // the two text elements pair up under `without_text`, with an internal
    // change and the same identifier on both sides
    let s = o[1].as_ref().unwrap();
    assert!(!s.no_match);
    assert!(s.internal_changes);
    assert_eq!(s.target_index, Some(1));
    assert_eq!(t[1].as_ref().unwrap().matching_id, s.matching_id);
}

#[test]
fn matching_full_subtree_skips_descendants() {
    let origin = doc(vec![tag("circle", "", vec![("cx", "1")])]);
    let target = doc(vec![tag("circle", "", vec![("cx", "1")])]);
    let rules = MatchingRules::default();
    let mut g = MatchingIdGenerator::new();
    let (o, t) = get_matching_ids(&origin, &target, &rules, &mut g);
    // the roots compare fully equal: nothing below them gets a state
    assert!(o[0].as_ref().unwrap().no_changes);
    assert!(o[1].is_none());
    assert!(t[1].is_none());
}

#[test]
fn matching_generated_ids_differ() {
    let origin = doc(vec![
        tag("circle", "", vec![("cx", "1")]),
        tag("rect", "", vec![("x", "2")]),
    ]);
    let target = doc(vec![]);
    let rules = MatchingRules::default();
    let mut g = MatchingIdGenerator::new();
    let (o, _t) = get_matching_ids(&origin, &target, &rules, &mut g);
    // both children are unmatched with fresh, distinct identifiers
    let a = o[1].as_ref().unwrap();
    let b = o[2].as_ref().unwrap();
    assert!(a.no_match && b.no_match);
    assert_ne!(a.matching_id, b.matching_id);
}
