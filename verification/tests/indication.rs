use page_graph::indication::{ProgressBuilder, ProgressType};

#[test]
fn builder_accumulates_fields() {
    let b = ProgressBuilder::new()
        .with_len(10)
        .with_message("loading")
        .with_finish_message("done")
        .with_steps(2, 6);

    assert!(matches!(b.bar_type, ProgressType::Progress));
    assert_eq!(b.len, Some(10));
    assert_eq!(b.message, Some("loading".to_string()));
    assert_eq!(b.finish_message, Some("done"));
    assert_eq!(b.step, Some(2));
    assert_eq!(b.steps, Some(6));
}

#[test]
fn builder_kinds_differ() {
    assert!(matches!(ProgressBuilder::empty().bar_type, ProgressType::Empty));
    assert!(matches!(ProgressBuilder::spinner().bar_type, ProgressType::Spinner));
    assert!(ProgressBuilder::empty().len.is_none());
    assert!(ProgressBuilder::spinner().message.is_none());
}
