use bitshit::details::{details_options, details_step, DetailsAction, DetailsChoice, DetailsOutcome};

#[test]
fn details_menu_of_each_record() {
    assert_eq!(details_options(false, "chat"), vec![DetailsChoice::Download, DetailsChoice::Back]);
    assert_eq!(
        details_options(true, "chat"),
        vec![DetailsChoice::Load, DetailsChoice::Back, DetailsChoice::Delete]
    );
    assert_eq!(details_options(true, "embedding"), vec![DetailsChoice::Back, DetailsChoice::Delete]);
    assert_eq!(details_options(false, "embedding"), vec![DetailsChoice::Download, DetailsChoice::Back]);
}

#[test]
fn finished_download_is_cached_and_loaded() {
    let r = details_step(false, None, DetailsChoice::Download, DetailsOutcome::Downloaded("/m/chat/x/w.gguf".to_string()));
    assert_eq!(r, (true, Some("/m/chat/x/w.gguf".to_string()), DetailsAction::Load));
    assert_eq!(details_options(r.0, "chat"), vec![DetailsChoice::Load, DetailsChoice::Back, DetailsChoice::Delete]);
}

#[test]
fn failed_download_changes_nothing() {
    let r = details_step(false, None, DetailsChoice::Download, DetailsOutcome::DownloadFailed);
    assert_eq!(r, (false, None, DetailsAction::ShowAgain));
}

#[test]
fn deletion_clears_the_record() {
    let path = Some("/m/chat/x/w.gguf".to_string());
    let r = details_step(true, path.clone(), DetailsChoice::Delete, DetailsOutcome::Deleted);
    assert_eq!(r, (false, None, DetailsAction::ShowAgain));
    assert_eq!(details_options(r.0, "chat"), vec![DetailsChoice::Download, DetailsChoice::Back]);
    let kept = details_step(true, path.clone(), DetailsChoice::Delete, DetailsOutcome::NotDeleted);
    assert_eq!(kept, (true, path, DetailsAction::ShowAgain));
}

#[test]
fn load_and_back_leave_the_screen() {
    let path = Some("/m/chat/x/w.gguf".to_string());
    assert_eq!(details_step(true, path.clone(), DetailsChoice::Load, DetailsOutcome::Nothing), (true, path.clone(), DetailsAction::Load));
    assert_eq!(details_step(true, path.clone(), DetailsChoice::Back, DetailsOutcome::Nothing), (true, path, DetailsAction::Back));
}
