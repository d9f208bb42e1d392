use topcoat::cli::export::site::ExportError;
use topcoat::cli::export::swap::{swap_step, SwapAction, SwapEvent, SwapState};

/// Drives an export into `out`, answering each action with the next event,
/// and returns the actions in order with the final result.
fn drive(out: &str, mut events: Vec<SwapEvent>) -> (Vec<String>, Result<(), String>) {
    events.reverse();
    let (mut state, mut action) = SwapState::begin(out);
    let mut seen = Vec::new();
    loop {
        let label = match &action {
            SwapAction::RemoveDir(p) => format!("remove {p}"),
            SwapAction::CreateDir(p) => format!("create {p}"),
            SwapAction::WriteSite(p) => format!("write {p}"),
            SwapAction::CheckExists(p) => format!("exists {p}"),
            SwapAction::Rename(a, b) => format!("rename {a} -> {b}"),
            SwapAction::DiscardDir(p) => format!("discard {p}"),
            SwapAction::Finish(_) => "finish".to_owned(),
        };
        seen.push(label);
        if let SwapAction::Finish(result) = action {
            return (seen, result.map_err(|e| e.to_string()));
        }
        let event = events.pop().expect("the export asked for more than the test answers");
        (state, action) = swap_step(state, event);
    }
}

fn failed(message: &str) -> SwapEvent {
    SwapEvent::Failed(ExportError::Rejected { message: message.to_owned() })
}

#[test]
fn a_successful_export_replaces_the_previous_one() {
    let (actions, result) = drive(
        "site/dist",
        vec![
            SwapEvent::Done,
            SwapEvent::Done,
            SwapEvent::Done,
            SwapEvent::Done,
            SwapEvent::Done,
            SwapEvent::OutExists(true),
            SwapEvent::Done,
            SwapEvent::Done,
            SwapEvent::Done,
        ],
    );
    assert_eq!(result, Ok(()));
    assert_eq!(
        actions,
        vec![
            "remove site/.dist.topcoat-export",
            "create site/.dist.topcoat-export",
            "write site/.dist.topcoat-export",
            "create site",
            "remove site/.dist.topcoat-export-prev",
            "exists site/dist",
            "rename site/dist -> site/.dist.topcoat-export-prev",
            "rename site/.dist.topcoat-export -> site/dist",
            "discard site/.dist.topcoat-export-prev",
            "finish",
        ]
    );
}

#[test]
fn a_first_export_has_nothing_to_move_aside() {
    let (actions, result) = drive(
        "dist",
        vec![SwapEvent::Done, SwapEvent::Done, SwapEvent::Done, SwapEvent::Done, SwapEvent::OutExists(false), SwapEvent::Done, SwapEvent::Done],
    );
    assert_eq!(result, Ok(()));
    assert_eq!(
        actions,
        vec![
            "remove .dist.topcoat-export",
            "create .dist.topcoat-export",
            "write .dist.topcoat-export",
            "remove .dist.topcoat-export-prev",
            "exists dist",
            "rename .dist.topcoat-export -> dist",
            "discard .dist.topcoat-export-prev",
            "finish",
        ]
    );
}

#[test]
fn a_failed_write_drops_the_staging_directory_and_keeps_the_output() {
    let (actions, result) =
        drive("dist", vec![SwapEvent::Done, SwapEvent::Done, failed("page broke"), SwapEvent::Done]);
    assert_eq!(result, Err("page broke".to_owned()));
    assert_eq!(
        actions,
        vec![
            "remove .dist.topcoat-export",
            "create .dist.topcoat-export",
            "write .dist.topcoat-export",
            "discard .dist.topcoat-export",
            "finish",
        ]
    );
}

#[test]
fn a_failed_final_rename_moves_the_previous_output_back() {
    let (actions, result) = drive(
        "dist",
        vec![
            SwapEvent::Done,
            SwapEvent::Done,
            SwapEvent::Done,
            SwapEvent::Done,
            SwapEvent::OutExists(true),
            SwapEvent::Done,
            failed("rename refused"),
            failed("ignored"),
        ],
    );
    assert_eq!(result, Err("rename refused".to_owned()));
    assert_eq!(
        actions[actions.len() - 4..],
        [
            "rename dist -> .dist.topcoat-export-prev".to_owned(),
            "rename .dist.topcoat-export -> dist".to_owned(),
            "rename .dist.topcoat-export-prev -> dist".to_owned(),
            "finish".to_owned(),
        ]
    );
}

#[test]
fn a_stale_staging_directory_that_cannot_be_removed_stops_the_export() {
    let (actions, result) = drive("dist", vec![failed("busy")]);
    assert_eq!(result, Err("busy".to_owned()));
    assert_eq!(actions, vec!["remove .dist.topcoat-export", "finish"]);
}
