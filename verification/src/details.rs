//! The details screen of the model hub: which choices it offers for a model
//! and how the model's record changes after each of them. The prompt, the
//! download and the deletion are carried out by the caller, which hands
//! their outcome back.
use vstd::prelude::*;
use crate::text::{chars_eq, chars_of};

verus! {

/// A choice offered on the details screen.
#[derive(Clone, Copy, PartialEq, Eq, Structural, Debug)]
pub enum DetailsChoice {
    /// Load the model and make it the active one.
    Load,
    /// Download the model into the store.
    Download,
    /// Leave the screen.
    Back,
    /// Delete the model from the store.
    Delete,
}

/// What came of the work a choice asked for.
#[derive(Debug)]
pub enum DetailsOutcome {
    /// The choice asks for no work (load, back).
    Nothing,
    /// The download finished; the path of the stored weight file.
    Downloaded(String),
    /// The download was cancelled or failed.
    DownloadFailed,
    /// The deletion was confirmed and the model directory removed.
    Deleted,
    /// The deletion was declined or failed.
    NotDeleted,
}

/// Where the screen goes next.
#[derive(Clone, Copy, PartialEq, Eq, Structural, Debug)]
pub enum DetailsAction {
    /// Leave the screen and load the model.
    Load,
    /// Leave the screen.
    Back,
    /// Show the details and the choices again.
    ShowAgain,
}

/// The choices offered, in order: load when the model is cached and is not
/// an embedding model, download when it is not cached, always back, and
/// delete when it is cached.
pub open spec fn details_menu(is_cached: bool, category: Seq<char>) -> Seq<DetailsChoice> {
    let first: Seq<DetailsChoice> = if is_cached && category != "embedding"@ {
        seq![DetailsChoice::Load]
    } else if !is_cached {
        seq![DetailsChoice::Download]
    } else {
        Seq::empty()
    };
    let last: Seq<DetailsChoice> = if is_cached {
        seq![DetailsChoice::Delete]
    } else {
        Seq::empty()
    };
    first + seq![DetailsChoice::Back] + last
}

/// The record's cached flag and local path after a choice and its outcome,
/// and where the screen goes: a finished download marks the model cached at
/// the downloaded path and loads it; a deletion clears both and shows the
/// screen again; a failed download or a declined deletion changes nothing.
pub open spec fn details_next(
    is_cached: bool,
    local_path: Option<Seq<char>>,
    choice: DetailsChoice,
    outcome: DetailsOutcome,
) -> (bool, Option<Seq<char>>, DetailsAction) {
    match choice {
        DetailsChoice::Load => (is_cached, local_path, DetailsAction::Load),
        DetailsChoice::Back => (is_cached, local_path, DetailsAction::Back),
        DetailsChoice::Download => match outcome {
            DetailsOutcome::Downloaded(p) => (true, Some(p@), DetailsAction::Load),
            _ => (is_cached, local_path, DetailsAction::ShowAgain),
        },
        DetailsChoice::Delete => match outcome {
            DetailsOutcome::Deleted => (false, None, DetailsAction::ShowAgain),
            _ => (is_cached, local_path, DetailsAction::ShowAgain),
        },
    }
}

pub open spec fn opt_string_view(o: Option<String>) -> Option<Seq<char>> {
    match o {
        Some(s) => Some(s@),
        None => None,
    }
}

/// The choices the details screen offers for a model.
pub fn details_options(is_cached: bool, category: &str) -> (r: Vec<DetailsChoice>)
    ensures
        r@ == details_menu(is_cached, category@),
{
    let embedding = chars_eq(chars_of(category).as_slice(), chars_of("embedding").as_slice());
    let mut r: Vec<DetailsChoice> = Vec::new();
    if is_cached && !embedding {
        r.push(DetailsChoice::Load);
    } else if !is_cached {
        r.push(DetailsChoice::Download);
    }
    r.push(DetailsChoice::Back);
    if is_cached {
        r.push(DetailsChoice::Delete);
    }
    assert(r@ =~= details_menu(is_cached, category@));
    r
}

/// The next state of the details screen after a choice and its outcome.
pub fn details_step(
    is_cached: bool,
    local_path: Option<String>,
    choice: DetailsChoice,
    outcome: DetailsOutcome,
) -> (r: (bool, Option<String>, DetailsAction))
    ensures
        (r.0, opt_string_view(r.1), r.2) == details_next(is_cached, opt_string_view(local_path), choice, outcome),
{
    match choice {
        DetailsChoice::Load => (is_cached, local_path, DetailsAction::Load),
        DetailsChoice::Back => (is_cached, local_path, DetailsAction::Back),
        DetailsChoice::Download => match outcome {
            DetailsOutcome::Downloaded(p) => (true, Some(p), DetailsAction::Load),
            _ => (is_cached, local_path, DetailsAction::ShowAgain),
        },
        DetailsChoice::Delete => match outcome {
            DetailsOutcome::Deleted => (false, None, DetailsAction::ShowAgain),
            _ => (is_cached, local_path, DetailsAction::ShowAgain),
        },
    }
}

/// After a finished download the model is cached at the downloaded path and
/// the screen offers deletion instead of download; after a deletion the
/// model is no longer cached, has no path, and the screen offers the
/// download again. A failed download or a declined deletion changes nothing.
pub proof fn law_details_menu_follows_the_record(
    is_cached: bool,
    local_path: Option<Seq<char>>,
    category: Seq<char>,
    choice: DetailsChoice,
    outcome: DetailsOutcome,
)
    ensures
        ({
            let n = details_next(is_cached, local_path, choice, outcome);
            &&& choice == DetailsChoice::Download && outcome is Downloaded ==> {
                &&& n.0
                &&& n.1 == Some(outcome->Downloaded_0@)
                &&& details_menu(n.0, category).contains(DetailsChoice::Delete)
                &&& !details_menu(n.0, category).contains(DetailsChoice::Download)
            }
            &&& choice == DetailsChoice::Delete && outcome is Deleted ==> {
                &&& !n.0
                &&& n.1 is None
                &&& details_menu(n.0, category) == seq![DetailsChoice::Download, DetailsChoice::Back]
            }
            &&& !(outcome is Downloaded || outcome is Deleted) ==> n.0 == is_cached && n.1 == local_path
        }),
{
    let n = details_next(is_cached, local_path, choice, outcome);
    if choice == DetailsChoice::Download && outcome is Downloaded {
        let m = details_menu(true, category);
        assert(m[m.len() - 1] == DetailsChoice::Delete);
        assert forall|k: int| 0 <= k < m.len() implies m[k] != DetailsChoice::Download by {}
    }
    if choice == DetailsChoice::Delete && outcome is Deleted {
        assert(details_menu(false, category) =~= seq![DetailsChoice::Download, DetailsChoice::Back]);
    }
}

} // verus!
