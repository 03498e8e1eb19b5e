use tcp_hub::pipeline::{Pipeline, PipelineState};

#[test]
fn reader_first_then_writer_tears_down_once() {
    let mut p = Pipeline::new();
    assert_eq!(p.state(), PipelineState::Active);
    assert!(!p.finish_reader());
    assert_eq!(p.state(), PipelineState::Draining);
    assert!(p.reader_has_finished());
    assert!(p.finish_writer());
    assert_eq!(p.state(), PipelineState::Closed);
    assert!(!p.finish_writer());
    assert!(!p.finish_reader());
}

#[test]
fn writer_first_then_reader_tears_down_once() {
    let mut p = Pipeline::new();
    assert!(!p.finish_writer());
    assert!(!p.reader_has_finished());
    assert!(!p.finish_writer());
    assert_eq!(p.state(), PipelineState::Draining);
    assert!(p.finish_reader());
    assert!(!p.finish_reader());
}
