use svg_diff::config::MatchingRule;
use svg_diff::flat_tree::FlatTreeBuilder;
use svg_diff::svg_data::svg::SVG;
use svg_diff::svg_data::tag::Tag;
use svg_diff::svg_data::treehash::TreeHash;

fn tag(name: &str, args: Vec<(&str, &str)>) -> Tag {
    Tag::new(
        name.to_string(),
        "".to_string(),
        args.into_iter()
            .map(|(k, v)| (k.to_string(), v.to_string()))
            .collect(),
    )
    .unwrap()
}

/// One document holding a single element.
fn single(name: &str, args: Vec<(&str, &str)>) -> SVG {
    let mut b = FlatTreeBuilder::new();
    b.start_end_element(tag(name, args));
    SVG { tags: b.build() }
}

/// The fingerprints of a document under the default rules.
fn hashes(svg: &SVG) -> Vec<TreeHash> {
    TreeHash::build_for_svg(svg, &MatchingRule::default_rules())
}

#[test]
fn treehash_different_tag() {
    let a_svg = single("g", vec![]);
    let b_svg = single("circle", vec![]);
    let a = &hashes(&a_svg)[0];
    let b = &hashes(&b_svg)[0];
    assert!(!a.eq_all(b));
    assert!(!a.eq_rule("with_reorder", b));
    assert!(!a.eq_rule("without_attr", b));
}

#[test]
fn treehash_different_attr() {
    let a_svg = single("circle", vec![("attr", "value1")]);
    let b_svg = single("circle", vec![("attr", "value2")]);
    let a = &hashes(&a_svg)[0];
    let b = &hashes(&b_svg)[0];
    assert!(!a.eq_all(b));
    assert!(!a.eq_rule("with_reorder", b));
    assert!(a.eq_rule("without_attr", b));
}

#[test]
fn treehash_different_children() {
    let a_svg = single("g", vec![]);
    let mut bb = FlatTreeBuilder::new();
    bb.start_element(tag("g", vec![]));
    bb.start_end_element(tag("circle", vec![("attr", "value")]));
    bb.end_element();
    let b_svg = SVG { tags: bb.build() };
    let a = &hashes(&a_svg)[0];
    let b = &hashes(&b_svg)[0];
    assert!(!a.eq_all(b));
    assert!(!a.eq_rule("with_reorder", b));
    assert!(!a.eq_rule("without_attr", b));
}

#[test]
fn treehash_same_children() {
    let mut ab = FlatTreeBuilder::new();
    ab.start_element(tag("g", vec![]));
    ab.start_end_element(tag("circle", vec![("attr", "value")]));
    ab.end_element();
    let a_svg = SVG { tags: ab.build() };
    let mut bb = FlatTreeBuilder::new();
    bb.start_element(tag("g", vec![]));
    bb.start_end_element(tag("circle", vec![("attr", "value")]));
    bb.end_element();
    let b_svg = SVG { tags: bb.build() };
    let a = &hashes(&a_svg)[0];
    let b = &hashes(&b_svg)[0];
    assert!(a.eq_all(b));
    assert!(a.eq_rule("with_reorder", b));
    assert!(a.eq_rule("without_attr", b));
}

#[test]
fn treehash_reorder_children() {
    let mut ab = FlatTreeBuilder::new();
    ab.start_element(tag("g", vec![]));
    ab.start_end_element(tag("circle", vec![("attr", "value")]));
    ab.start_end_element(tag("rect", vec![("attr", "value")]));
    ab.end_element();
    let a_svg = SVG { tags: ab.build() };
    let mut bb = FlatTreeBuilder::new();
    bb.start_element(tag("g", vec![]));
    bb.start_end_element(tag("rect", vec![("attr", "value")]));
    bb.start_end_element(tag("circle", vec![("attr", "value")]));
    bb.end_element();
    let b_svg = SVG { tags: bb.build() };
    let a = &hashes(&a_svg)[0];
    let b = &hashes(&b_svg)[0];
    assert!(!a.eq_all(b));
    assert!(a.eq_rule("with_reorder", b));
    assert!(a.eq_rule("without_attr", b));
}

#[test]
fn baseline_digests_local_and_subtree() {
    let tag_a = tag("circle", vec![("attr", "value1")]);
    let tag_b = tag("circle", vec![("attr", "value2")]);
    let a = TreeHash::new(&tag_a, &vec![]);
    let b = TreeHash::new(&tag_b, &vec![]);
    // the local digests see the attribute, the subtree digest does not
    assert!(!a.eq_all(&b));
    assert!(!a.eq_all_without_subtrees(&b));
    assert!(a.eq_all_subtrees(&b));
}
