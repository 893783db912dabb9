use vstd::prelude::*;

verus! {

/// The actions of the first-run dialog, which offers to run the setup script
/// that grants the monitor its permissions.
#[derive(Clone, Copy, Debug, PartialEq, Eq, Structural)]
pub enum ScriptAction {
    ViewScript,
    RunScript,
    RunRevertScript,
    CopyScriptCommand,
    CopyRevertScriptCommand,
    CopyScriptLocation,
}

/// The name under which an action is registered with the application.
pub fn action_name(action: ScriptAction) -> (r: &'static str)
    ensures
        r@ == action_name_spec(action),
{
    match action {
        ScriptAction::ViewScript => "view_script",
        ScriptAction::RunScript => "run_script",
        ScriptAction::RunRevertScript => "run_revert_script",
        ScriptAction::CopyScriptCommand => "copy_script_command",
        ScriptAction::CopyRevertScriptCommand => "copy_revert_script_command",
        ScriptAction::CopyScriptLocation => "copy_script_location",
    }
}

pub open spec fn action_name_spec(action: ScriptAction) -> Seq<char> {
    match action {
        ScriptAction::ViewScript => "view_script"@,
        ScriptAction::RunScript => "run_script"@,
        ScriptAction::RunRevertScript => "run_revert_script"@,
        ScriptAction::CopyScriptCommand => "copy_script_command"@,
        ScriptAction::CopyRevertScriptCommand => "copy_revert_script_command"@,
        ScriptAction::CopyScriptLocation => "copy_script_location"@,
    }
}

/// The alerts that the first-run dialog can raise.
#[derive(Clone, Copy, Debug, PartialEq, Eq, Structural)]
pub enum AlertKind {
    /// The script could not be opened for viewing.
    OpenFailed,
    /// The setup script failed.
    SetupFailed,
    /// The revert script failed.
    RevertFailed,
    /// The setup script succeeded; a restart is offered.
    Success,
}

/// The heading of an alert, as a message id to localize.
pub fn alert_message(kind: AlertKind) -> (r: &'static str)
    ensures
        r@ == alert_message_spec(kind),
{
    match kind {
        AlertKind::OpenFailed => "Failed to Open Script",
        AlertKind::SetupFailed => "Setup Script Failed",
        AlertKind::RevertFailed => "Revert Setup Script Failed",
        AlertKind::Success => "Success!",
    }
}

pub open spec fn alert_message_spec(kind: AlertKind) -> Seq<char> {
    match kind {
        AlertKind::OpenFailed => "Failed to Open Script"@,
        AlertKind::SetupFailed => "Setup Script Failed"@,
        AlertKind::RevertFailed => "Revert Setup Script Failed"@,
        AlertKind::Success => "Success!"@,
    }
}

/// The labels of an alert's buttons, as message ids to localize, in order; a response is
/// the index of the button chosen.
pub fn alert_buttons(kind: AlertKind) -> (r: Vec<&'static str>)
    ensures
        r@.len() == alert_buttons_spec(kind).len(),
        forall|i: int| 0 <= i < r@.len() ==> #[trigger] r@[i]@ == alert_buttons_spec(kind)[i],
{
    let r = match kind {
        AlertKind::OpenFailed => vec!["Copy File Location", "Close"],
        AlertKind::SetupFailed | AlertKind::RevertFailed => vec!["Copy Output", "Retry", "Close"],
        AlertKind::Success => vec!["Restart", "Close"],
    };
    r
}

pub open spec fn alert_buttons_spec(kind: AlertKind) -> Seq<Seq<char>> {
    match kind {
        AlertKind::OpenFailed => seq!["Copy File Location"@, "Close"@],
        AlertKind::SetupFailed | AlertKind::RevertFailed => seq![
            "Copy Output"@,
            "Retry"@,
            "Close"@,
        ],
        AlertKind::Success => seq!["Restart"@, "Close"@],
    }
}

/// The button an alert focuses first: the second one, but for the success
/// alert, which leaves the choice to the toolkit.
pub fn alert_default_button(kind: AlertKind) -> (r: Option<i32>)
    ensures
        r == if kind == AlertKind::Success {
            None::<i32>
        } else {
            Some(1i32)
        },
{
    match kind {
        AlertKind::Success => None,
        _ => Some(1),
    }
}

/// What the first-run dialog is to do next.
pub enum FirstRunStep {
    Nothing,
    /// Raise an alert with a detail text (for `Success`, the fixed question
    /// whether to restart, which the caller localizes), keeping `copy_text`
    /// for its copy button; then, when `close_dialog`, close the first-run
    /// dialog.
    ShowAlert { kind: AlertKind, detail: String, copy_text: String, close_dialog: bool },
    /// Close the first-run dialog.
    CloseDialog,
    /// Put a text on the clipboard.
    CopyToClipboard(String),
    /// Activate an action again.
    Activate(ScriptAction),
    /// Restart the application.
    Restart,
}

/// The question asked once the setup script succeeded.
pub open spec fn restart_question() -> Seq<char> {
    "Restart Mission Center to apply changes?"@
}

/// The command that runs the setup script, or (`revert`) the one that undoes
/// it: the elevation command, a space and the script's path, and then
/// " --revert".
pub fn script_command(elevation_command: &str, file: &str, revert: bool) -> (r: String)
    ensures
        r@ == elevation_command@ + " "@ + file@ + if revert {
            " --revert"@
        } else {
            Seq::empty()
        },
{
    let mut s = String::from_str(elevation_command);
    s.append(" ");
    s.append(file);
    if revert {
        s.append(" --revert");
    } else {
        assert(s@ + Seq::<char>::empty() =~= s@);
    }
    s
}

/// The text that the copy-script actions put on the clipboard.
pub fn copy_action_text(action: ScriptAction, elevation_command: &str, file: &str) -> (r: Option<
    String,
>)
    ensures
        match action {
            ScriptAction::CopyScriptCommand => r matches Some(s) && s@ == elevation_command@
                + " "@ + file@,
            ScriptAction::CopyRevertScriptCommand => r matches Some(s) && s@ == elevation_command@
                + " "@ + file@ + " --revert"@,
            ScriptAction::CopyScriptLocation => r matches Some(s) && s@ == file@,
            _ => r is None,
        },
{
    match action {
        ScriptAction::CopyScriptCommand => {
            let s = script_command(elevation_command, file, false);
            assert(elevation_command@ + " "@ + file@ + Seq::<char>::empty() =~= elevation_command@
                + " "@ + file@);
            Some(s)
        },
        ScriptAction::CopyRevertScriptCommand => Some(script_command(elevation_command, file, true)),
        ScriptAction::CopyScriptLocation => Some(String::from_str(file)),
        _ => None,
    }
}

/// After trying to open the script for viewing: on failure, an alert whose
/// detail is the script's path, a colon, a line break and the error output,
/// and whose copy button copies the output.
pub fn on_script_opened(file: &str, result: Result<(), String>) -> (r: FirstRunStep)
    ensures
        match result {
            Ok(()) => r is Nothing,
            Err(output) => r matches FirstRunStep::ShowAlert { kind, detail, copy_text, close_dialog }
                && kind == AlertKind::OpenFailed && detail@ == file@ + ":\n"@ + output@
                && copy_text@ == output@ && !close_dialog,
        },
{
    match result {
        Ok(()) => FirstRunStep::Nothing,
        Err(output) => {
            let mut detail = String::from_str(file);
            detail.append(":\n");
            detail.append(output.as_str());
            FirstRunStep::ShowAlert {
                kind: AlertKind::OpenFailed,
                detail,
                copy_text: output,
                close_dialog: false,
            }
        },
    }
}

/// After running the setup script: on failure, an alert with its message;
/// on success, the offer to restart, and the first-run dialog closes.
pub fn on_setup_script_run(result: Result<(), String>) -> (r: FirstRunStep)
    ensures
        match result {
            Ok(()) => r matches FirstRunStep::ShowAlert { kind, detail, copy_text, close_dialog }
                && kind == AlertKind::Success && detail@ == restart_question() && copy_text@
                == Seq::<char>::empty() && close_dialog,
            Err(message) => r matches FirstRunStep::ShowAlert {
                kind,
                detail,
                copy_text,
                close_dialog,
            } && kind == AlertKind::SetupFailed && detail@ == message@ && copy_text@ == message@
                && !close_dialog,
        },
{
    match result {
        Ok(()) => FirstRunStep::ShowAlert {
            kind: AlertKind::Success,
            detail: String::from_str("Restart Mission Center to apply changes?"),
            copy_text: String::new(),
            close_dialog: true,
        },
        Err(message) => {
            let copy_text = message.clone();
            FirstRunStep::ShowAlert {
                kind: AlertKind::SetupFailed,
                detail: message,
                copy_text,
                close_dialog: false,
            }
        },
    }
}

/// After running the revert script: on failure, an alert with its message;
/// on success the first-run dialog closes.
pub fn on_revert_script_run(result: Result<(), String>) -> (r: FirstRunStep)
    ensures
        match result {
            Ok(()) => r is CloseDialog,
            Err(message) => r matches FirstRunStep::ShowAlert {
                kind,
                detail,
                copy_text,
                close_dialog,
            } && kind == AlertKind::RevertFailed && detail@ == message@ && copy_text@ == message@
                && !close_dialog,
        },
{
    match result {
        Ok(()) => FirstRunStep::CloseDialog,
        Err(message) => {
            let copy_text = message.clone();
            FirstRunStep::ShowAlert {
                kind: AlertKind::RevertFailed,
                detail: message,
                copy_text,
                close_dialog: false,
            }
        },
    }
}

/// What choosing a button of an alert does (`None` when the alert was
/// dismissed): the first button of a failure alert copies its text, the
/// second retries the failed script; the first button of the success alert
/// restarts the application; anything else does nothing.
pub fn on_alert_response(kind: AlertKind, copy_text: String, response: Option<i32>) -> (r:
    FirstRunStep)
    ensures
        r == alert_response_spec(kind, copy_text, response),
{
    match (kind, response) {
        (AlertKind::Success, Some(0)) => FirstRunStep::Restart,
        (AlertKind::Success, _) => FirstRunStep::Nothing,
        (_, Some(0)) => FirstRunStep::CopyToClipboard(copy_text),
        (AlertKind::SetupFailed, Some(1)) => FirstRunStep::Activate(ScriptAction::RunScript),
        (AlertKind::RevertFailed, Some(1)) => FirstRunStep::Activate(ScriptAction::RunRevertScript),
        _ => FirstRunStep::Nothing,
    }
}

pub open spec fn alert_response_spec(kind: AlertKind, copy_text: String, response: Option<i32>) -> FirstRunStep {
    if response == Some(0i32) {
        if kind == AlertKind::Success {
            FirstRunStep::Restart
        } else {
            FirstRunStep::CopyToClipboard(copy_text)
        }
    } else if response == Some(1i32) && kind == AlertKind::SetupFailed {
        FirstRunStep::Activate(ScriptAction::RunScript)
    } else if response == Some(1i32) && kind == AlertKind::RevertFailed {
        FirstRunStep::Activate(ScriptAction::RunRevertScript)
    } else {
        FirstRunStep::Nothing
    }
}

/// Retrying from a failure alert runs again the script whose failure raised
/// it, and copying from it copies the script's message.
pub proof fn lemma_failure_alert_retries_same_script(message: String, revert: bool)
    ensures
        ({
            let kind = if revert {
                AlertKind::RevertFailed
            } else {
                AlertKind::SetupFailed
            };
            let action = if revert {
                ScriptAction::RunRevertScript
            } else {
                ScriptAction::RunScript
            };
            &&& alert_response_spec(kind, message, Some(1i32)) == FirstRunStep::Activate(action)
            &&& alert_response_spec(kind, message, Some(0i32)) == FirstRunStep::CopyToClipboard(
                message,
            )
        }),
{
}

} // verus!
