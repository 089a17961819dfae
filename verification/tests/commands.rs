use llaunchpad::commands::{
    launch_result, list_terminals, model_rows, requested_terminal, restore_result, SnapshotDto,
};
use llaunchpad::terminal::{Host, Platform, Terminal};

fn strings(names: &[&str]) -> Vec<String> {
    names.iter().map(|n| n.to_string()).collect()
}

#[test]
fn model_rows_put_cloud_first_and_skip_known_locals() {
    let cloud = strings(&["glm-4.6:cloud", "gpt-oss:120b-cloud"]);
    let locals = strings(&["llama3:8b", "glm-4.6:cloud", "llama3:8b", "qwen3:4b"]);
    let rows = model_rows(Some(&cloud), &locals);
    let got: Vec<(String, bool)> = rows.into_iter().map(|r| (r.name, r.local)).collect();
    assert_eq!(
        got,
        vec![
            ("glm-4.6:cloud".to_string(), false),
            ("gpt-oss:120b-cloud".to_string(), false),
            ("llama3:8b".to_string(), true),
            ("qwen3:4b".to_string(), true),
        ]
    );
    let rows = model_rows(None, &locals);
    let got: Vec<(String, bool)> = rows.into_iter().map(|r| (r.name, r.local)).collect();
    assert_eq!(
        got,
        vec![
            ("llama3:8b".to_string(), true),
            ("glm-4.6:cloud".to_string(), true),
            ("qwen3:4b".to_string(), true),
        ]
    );
}

#[test]
fn snapshot_without_world_has_no_restore_state() {
    let dto = SnapshotDto::new(7u8, None, &strings(&["a"]), None);
    assert_eq!(dto.snapshot, 7);
    assert_eq!(dto.models.len(), 1);
    assert!(dto.restorable.is_empty());
    let dto = SnapshotDto::new((), Some(&strings(&["b"])), &Vec::new(), Some(vec![true, false]));
    assert_eq!(dto.restorable, vec![true, false]);
    assert!(!dto.models[0].local);
}

#[test]
fn terminal_rows() {
    let host = Host {
        platform: Platform::Linux,
        path_files: strings(&["konsole", "kitty"]),
        app_bundles: Vec::new(),
    };
    let rows = list_terminals(&host);
    let got: Vec<(String, String, bool)> = rows.into_iter().map(|r| (r.key, r.label, r.available)).collect();
    assert_eq!(
        got,
        vec![
            ("default".to_string(), "System default".to_string(), true),
            ("konsole".to_string(), "Konsole".to_string(), true),
            ("kitty".to_string(), "kitty".to_string(), true),
        ]
    );
}

#[test]
fn request_outcomes() {
    let ok = launch_result(Ok(()));
    assert!(ok.ok);
    assert_eq!(ok.message, "\u{2713} launched");
    let err = launch_result(Err("failed to open Codex".to_string()));
    assert!(!err.ok);
    assert_eq!(err.message, "\u{2717} failed to open Codex");
    assert_eq!(restore_result(Ok(())).message, "\u{2713} restored");
    assert_eq!(restore_result(Err("x".to_string())).message, "\u{2717} x");
}

#[test]
fn requested_terminal_defaults() {
    assert_eq!(requested_terminal(None), Terminal::Default);
    assert_eq!(requested_terminal(Some("xterm")), Terminal::Xterm);
    assert_eq!(requested_terminal(Some("bogus")), Terminal::Default);
}
