use missioncenter::first_run::{
    action_name, alert_buttons, alert_default_button, alert_message, copy_action_text,
    on_alert_response, on_revert_script_run, on_script_opened, on_setup_script_run,
    script_command, AlertKind, FirstRunStep, ScriptAction,
};

fn alert(step: FirstRunStep) -> (AlertKind, String, String, bool) {
    match step {
        FirstRunStep::ShowAlert { kind, detail, copy_text, close_dialog } => (kind, detail, copy_text, close_dialog),
        _ => panic!("expected an alert"),
    }
}

#[test]
fn action_names() {
    assert_eq!(action_name(ScriptAction::ViewScript), "view_script");
    assert_eq!(action_name(ScriptAction::RunScript), "run_script");
    assert_eq!(action_name(ScriptAction::RunRevertScript), "run_revert_script");
    assert_eq!(action_name(ScriptAction::CopyScriptCommand), "copy_script_command");
    assert_eq!(action_name(ScriptAction::CopyRevertScriptCommand), "copy_revert_script_command");
    assert_eq!(action_name(ScriptAction::CopyScriptLocation), "copy_script_location");
}

#[test]
fn copy_commands() {
    assert_eq!(script_command("pkexec", "/tmp/setup.sh", false), "pkexec /tmp/setup.sh");
    assert_eq!(script_command("pkexec", "/tmp/setup.sh", true), "pkexec /tmp/setup.sh --revert");
    assert_eq!(copy_action_text(ScriptAction::CopyScriptCommand, "sudo", "s.sh"), Some("sudo s.sh".to_string()));
    assert_eq!(copy_action_text(ScriptAction::CopyRevertScriptCommand, "sudo", "s.sh"), Some("sudo s.sh --revert".to_string()));
    assert_eq!(copy_action_text(ScriptAction::CopyScriptLocation, "sudo", "s.sh"), Some("s.sh".to_string()));
    assert_eq!(copy_action_text(ScriptAction::RunScript, "sudo", "s.sh"), None);
}

#[test]
fn alert_texts() {
    assert_eq!(alert_message(AlertKind::OpenFailed), "Failed to Open Script");
    assert_eq!(alert_message(AlertKind::SetupFailed), "Setup Script Failed");
    assert_eq!(alert_message(AlertKind::RevertFailed), "Revert Setup Script Failed");
    assert_eq!(alert_message(AlertKind::Success), "Success!");
    assert_eq!(alert_buttons(AlertKind::OpenFailed), vec!["Copy File Location", "Close"]);
    assert_eq!(alert_buttons(AlertKind::SetupFailed), vec!["Copy Output", "Retry", "Close"]);
    assert_eq!(alert_buttons(AlertKind::Success), vec!["Restart", "Close"]);
    assert_eq!(alert_default_button(AlertKind::RevertFailed), Some(1));
    assert_eq!(alert_default_button(AlertKind::Success), None);
}

#[test]
fn opening_the_script() {
    assert!(matches!(on_script_opened("/s.sh", Ok(())), FirstRunStep::Nothing));
    let (kind, detail, copy, close) = alert(on_script_opened("/s.sh", Err("no viewer".to_string())));
    assert_eq!(kind, AlertKind::OpenFailed);
    assert_eq!(detail, "/s.sh:\nno viewer");
    assert_eq!(copy, "no viewer");
    assert!(!close);
}

#[test]
fn running_the_scripts() {
    let (kind, detail, _, close) = alert(on_setup_script_run(Ok(())));
    assert_eq!(kind, AlertKind::Success);
    assert_eq!(detail, "Restart Mission Center to apply changes?");
    assert!(close);
    let (kind, detail, copy, close) = alert(on_setup_script_run(Err("denied".to_string())));
    assert_eq!((kind, detail.as_str(), copy.as_str(), close), (AlertKind::SetupFailed, "denied", "denied", false));
    assert!(matches!(on_revert_script_run(Ok(())), FirstRunStep::CloseDialog));
    let (kind, _, copy, _) = alert(on_revert_script_run(Err("oops".to_string())));
    assert_eq!((kind, copy.as_str()), (AlertKind::RevertFailed, "oops"));
}

#[test]
fn alert_responses() {
    assert!(matches!(on_alert_response(AlertKind::Success, String::new(), Some(0)), FirstRunStep::Restart));
    assert!(matches!(on_alert_response(AlertKind::Success, String::new(), Some(1)), FirstRunStep::Nothing));
    match on_alert_response(AlertKind::OpenFailed, "out".to_string(), Some(0)) {
        FirstRunStep::CopyToClipboard(t) => assert_eq!(t, "out"),
        _ => panic!("expected a copy"),
    }
    assert!(matches!(on_alert_response(AlertKind::OpenFailed, "out".to_string(), Some(1)), FirstRunStep::Nothing));
    assert!(matches!(
        on_alert_response(AlertKind::SetupFailed, "m".to_string(), Some(1)),
        FirstRunStep::Activate(ScriptAction::RunScript)
    ));
    assert!(matches!(
        on_alert_response(AlertKind::RevertFailed, "m".to_string(), Some(1)),
        FirstRunStep::Activate(ScriptAction::RunRevertScript)
    ));
    assert!(matches!(on_alert_response(AlertKind::SetupFailed, "m".to_string(), Some(2)), FirstRunStep::Nothing));
    assert!(matches!(on_alert_response(AlertKind::SetupFailed, "m".to_string(), None), FirstRunStep::Nothing));
}
