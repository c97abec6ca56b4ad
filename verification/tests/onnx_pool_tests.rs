use bitshit::onnx_pool::{pick_session, session_layout};

#[test]
fn session_layout_splits_the_threads() {
    assert_eq!(session_layout(Some(16)), (4, 4));
    assert_eq!(session_layout(Some(6)), (4, 1));
    assert_eq!(session_layout(Some(3)), (3, 1));
    assert_eq!(session_layout(Some(0)), (1, 1));
    assert_eq!(session_layout(None), (4, 1));
    assert_eq!(session_layout(Some(10)), (4, 2));
}

#[test]
fn the_first_free_session_serves() {
    assert_eq!(pick_session(&vec![true, false, false]), Ok(1));
    assert_eq!(pick_session(&vec![true, true]), Ok(0));
    assert_eq!(pick_session(&vec![false]), Ok(0));
    assert_eq!(pick_session(&vec![]), Err("No ONNX sessions are active; load a model first".to_string()));
}
