use planner::upload::{FileUpload, FileUploadState, UploadedFile};

#[test]
fn upload_runs_through_its_states() {
    let mut u = FileUpload::new(None);
    assert!(u.is_empty());
    assert!(u.is_ready());
    assert!(u.is_valid());
    assert_eq!(u.file_name(), None);
    assert!(u.begin("plan.BAL".to_string()));
    assert!(!u.is_ready());
    assert_eq!(u.file_name(), Some("plan.BAL".to_string()));
    assert!(!u.begin("other.BAL".to_string()));
    assert_eq!(u.file_name(), Some("plan.BAL".to_string()));
    u.finish("content".to_string(), false);
    assert!(!u.is_valid());
    assert!(u.is_ready());
    let f = u.file().unwrap();
    assert_eq!((f.file_name.as_str(), f.content.as_str()), ("plan.BAL", "content"));
    assert!(u.begin("next.BAL".to_string()));
    assert!(u.is_valid());
    u.abort();
    assert!(matches!(&u.state, FileUploadState::Failed { file_name } if file_name == "next.BAL"));
    assert!(u.file().is_none());
}

#[test]
fn finish_and_abort_need_an_upload_in_progress() {
    let init = UploadedFile { file_name: "a".to_string(), content: "x".to_string() };
    let mut u = FileUpload::new(Some(init));
    assert!(!u.is_empty());
    u.abort();
    u.finish("y".to_string(), false);
    assert!(u.is_valid());
    assert_eq!(u.file().unwrap().content, "x");
}
