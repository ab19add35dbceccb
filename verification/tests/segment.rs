use course_catalog::block::Block;
use course_catalog::segment::segment;

fn seg_block(class: &str, text: &str) -> Block {
    Block { classes: vec![class.to_string()], fragments: vec![text.to_string()] }
}

fn seg_marker(text: &str) -> Block {
    seg_block("course-name", text)
}

fn seg_filler(text: &str) -> Block {
    seg_block("desc", text)
}

fn seg_texts(group: &[Block]) -> Vec<String> {
    group.iter().map(|b| b.text()).collect()
}

#[test]
fn three_markers_with_filler_yield_two_groups() {
    let blocks = vec![
        seg_marker("m1"),
        seg_filler("a"),
        seg_marker("m2"),
        seg_filler("b"),
        seg_filler("c"),
        seg_marker("m3"),
        seg_filler("d"),
    ];
    let groups = segment(&blocks);
    assert_eq!(groups.len(), 2);
    assert_eq!(seg_texts(groups[0]), vec!["m1", "a"]);
    assert_eq!(seg_texts(groups[1]), vec!["m2", "b", "c"]);
}

#[test]
fn groups_borrow_the_input_blocks() {
    let blocks = vec![seg_marker("m1"), seg_filler("a"), seg_marker("m2")];
    let groups = segment(&blocks);
    assert_eq!(groups.len(), 1);
    assert_eq!(groups[0], &blocks[0..2]);
}

#[test]
fn no_marker_yields_no_group() {
    let blocks = vec![seg_filler("a"), seg_filler("b"), seg_filler("c")];
    assert_eq!(segment(&blocks).len(), 0);
}

#[test]
fn empty_input_yields_no_group() {
    let blocks: Vec<Block> = Vec::new();
    assert_eq!(segment(&blocks).len(), 0);
}

#[test]
fn single_marker_yields_no_group() {
    let blocks = vec![seg_marker("m1"), seg_filler("a"), seg_filler("b")];
    assert_eq!(segment(&blocks).len(), 0);
}

#[test]
fn trailing_group_is_dropped() {
    let blocks = vec![seg_marker("m1"), seg_filler("a"), seg_marker("m2"), seg_filler("last")];
    let groups = segment(&blocks);
    assert_eq!(groups.len(), 1);
    assert_eq!(seg_texts(groups[0]), vec!["m1", "a"]);
}

#[test]
fn blocks_before_the_first_marker_form_a_group() {
    let blocks = vec![
        seg_filler("x"),
        seg_filler("y"),
        seg_marker("m1"),
        seg_filler("a"),
        seg_marker("m2"),
    ];
    let groups = segment(&blocks);
    assert_eq!(groups.len(), 2);
    assert_eq!(seg_texts(groups[0]), vec!["x", "y"]);
    assert_eq!(seg_texts(groups[1]), vec!["m1", "a"]);
}

#[test]
fn adjacent_markers_yield_a_group_of_one_block() {
    let blocks = vec![seg_marker("m1"), seg_marker("m2"), seg_marker("m3")];
    let groups = segment(&blocks);
    assert_eq!(groups.len(), 2);
    assert_eq!(seg_texts(groups[0]), vec!["m1"]);
    assert_eq!(seg_texts(groups[1]), vec!["m2"]);
}

#[test]
fn marker_class_is_found_whatever_its_case() {
    let blocks = vec![
        seg_block("Course-Name", "m1"),
        seg_filler("a"),
        seg_block("COURSE-NAME", "m2"),
        seg_filler("b"),
        Block {
            classes: vec!["other".to_string(), "course-name".to_string()],
            fragments: vec!["m3".to_string()],
        },
    ];
    let groups = segment(&blocks);
    assert_eq!(groups.len(), 2);
    assert_eq!(seg_texts(groups[1]), vec!["m2", "b"]);
}

#[test]
fn a_class_that_only_resembles_the_marker_does_not_cut() {
    let blocks = vec![
        seg_marker("m1"),
        seg_block("course-names", "a"),
        seg_block("course_name", "b"),
        seg_block("coursename", "c"),
        seg_marker("m2"),
    ];
    let groups = segment(&blocks);
    assert_eq!(groups.len(), 1);
    assert_eq!(groups[0].len(), 4);
}

#[test]
fn there_is_one_group_per_marker_that_does_not_stand_first() {
    let mut blocks = Vec::new();
    let mut markers = 0;
    for i in 0..40 {
        if i % 3 == 0 || i % 7 == 0 {
            blocks.push(seg_marker("m"));
            markers += 1;
        } else {
            blocks.push(seg_filler("f"));
        }
    }
    assert_eq!(segment(&blocks).len(), markers - 1);
    assert_eq!(segment(&blocks[1..]).len(), markers - 1);
}
