use puppynet::update::{
    parse_u32, select_asset, select_signature, update_result_of, verify_signature, ReleaseAsset,
    SignatureError, UpdateAction, UpdateProgress, UpdateRun, UpdateStage, UpdateStep,
};

fn assets() -> Vec<ReleaseAsset> {
    vec![
        ReleaseAsset { name: "puppynet-windows.zip".to_string(), download_url: "https://x/w".to_string() },
        ReleaseAsset { name: "puppynet-linux.tar.gz".to_string(), download_url: "https://x/l".to_string() },
    ]
}

fn label(p: &UpdateProgress) -> String {
    match p {
        UpdateProgress::FetchingRelease => "Fetching".to_string(),
        UpdateProgress::Downloading { filename } => format!("Downloading {}", filename),
        UpdateProgress::Unpacking => "Unpacking".to_string(),
        UpdateProgress::Verifying => "Verifying".to_string(),
        UpdateProgress::Installing => "Installing".to_string(),
        UpdateProgress::Completed { version } => format!("Completed {}", version),
        UpdateProgress::Failed { error } => format!("Failed {}", error),
        UpdateProgress::AlreadyUpToDate { current_version } => format!("UpToDate {}", current_version),
    }
}

fn run_until_verify(seq: &mut Vec<String>) -> UpdateRun {
    let (mut run, first) = UpdateRun::begin(None, 41, "linux".to_string(), "puppynet".to_string());
    seq.push(label(&first));
    let step = run.on_release("42".to_string(), &assets());
    seq.extend(step.events.iter().map(label));
    match &step.action {
        UpdateAction::Download { url, filename } => {
            assert_eq!(url, "https://x/l");
            assert_eq!(filename, "puppynet-linux.tar.gz");
        }
        other => panic!("unexpected {:?}", other),
    }
    let step = run.on_downloaded();
    seq.extend(step.events.iter().map(label));
    assert!(matches!(step.action, UpdateAction::Unpack { zip: false, .. }));
    let step = run.on_unpacked();
    seq.extend(step.events.iter().map(label));
    let files = vec!["puppynet".to_string(), "puppynet.sig".to_string(), "README".to_string()];
    let step = run.on_located(&files);
    match &step.action {
        UpdateAction::Verify { binary, signature } => {
            assert_eq!(binary, "puppynet");
            assert_eq!(signature, "puppynet.sig");
        }
        other => panic!("unexpected {:?}", other),
    }
    run
}

#[test]
fn update_happy_path_sequence() {
    let mut seq = Vec::new();
    let mut run = run_until_verify(&mut seq);
    let step = run.on_verified(true);
    seq.extend(step.events.iter().map(label));
    assert!(matches!(step.action, UpdateAction::Install { .. }));
    let step: UpdateStep = run.on_installed();
    seq.extend(step.events.iter().map(label));
    match step.action {
        UpdateAction::Finish(result) => {
            assert!(result.success);
            assert_eq!(result.message, "Updated to version 42");
            assert_eq!(result.new_version, Some("42".to_string()));
        }
        other => panic!("unexpected {:?}", other),
    }
    assert_eq!(
        seq,
        vec!["Fetching", "Downloading puppynet-linux.tar.gz", "Unpacking", "Verifying", "Installing", "Completed 42"]
    );
    assert_eq!(run.stage(), UpdateStage::Done);
}

#[test]
fn update_blocked_by_bad_signature() {
    let mut seq = Vec::new();
    let mut run = run_until_verify(&mut seq);
    let step = run.on_verified(false);
    seq.extend(step.events.iter().map(label));
    match step.action {
        UpdateAction::Finish(result) => assert!(!result.success),
        other => panic!("an unverified binary must not be installed: {:?}", other),
    }
    assert_eq!(seq.last().unwrap(), "Failed Signature verification failed");
    assert_eq!(seq[seq.len() - 2], "Verifying");
}

#[test]
fn already_up_to_date() {
    let (mut run, _) = UpdateRun::begin(None, 42, "linux".to_string(), "puppynet".to_string());
    let step = run.on_release("42".to_string(), &assets());
    assert_eq!(step.events.iter().map(label).collect::<Vec<_>>(), vec!["UpToDate 42"]);
    match step.action {
        UpdateAction::Finish(r) => {
            assert!(r.success);
            assert_eq!(r.message, "Already up to date");
        }
        other => panic!("unexpected {:?}", other),
    }
    // an explicit version is always installed
    let (mut run, _) = UpdateRun::begin(Some("40".to_string()), 42, "linux".to_string(), "puppynet".to_string());
    let step = run.on_release("40".to_string(), &assets());
    assert!(matches!(step.action, UpdateAction::Download { .. }));
}

#[test]
fn missing_asset_binary_or_signature_fails() {
    let (mut run, _) = UpdateRun::begin(None, 1, "macos".to_string(), "puppynet".to_string());
    let step = run.on_release("2".to_string(), &assets());
    assert_eq!(step.events.iter().map(label).collect::<Vec<_>>(), vec!["Failed no asset found for os: macos"]);
    let (mut run, _) = UpdateRun::begin(None, 1, "windows".to_string(), "puppynet.exe".to_string());
    let step = run.on_release("v2".to_string(), &assets());
    assert!(matches!(step.action, UpdateAction::Download { .. }));
    let step = run.on_downloaded();
    assert!(matches!(step.action, UpdateAction::Unpack { zip: true, .. }));
    run.on_unpacked();
    let step = run.on_located(&vec!["puppynet.exe".to_string(), "notes.txt".to_string()]);
    match &step.events[0] {
        UpdateProgress::Failed { error } => assert_eq!(
            error,
            "Signature file not found: tried puppynet.sig, puppynet.exe.sig and any .sig file. \
             Directory contains: puppynet.exe, notes.txt"
        ),
        other => panic!("unexpected {:?}", other),
    }
    let (mut run, _) = UpdateRun::begin(None, 1, "linux".to_string(), "puppynet".to_string());
    run.on_release("2".to_string(), &assets());
    run.on_downloaded();
    run.on_unpacked();
    let step = run.on_located(&vec!["other".to_string()]);
    match &step.events[0] {
        UpdateProgress::Failed { error } => assert_eq!(error, "Binary not found: puppynet"),
        other => panic!("unexpected {:?}", other),
    }
}

#[test]
fn error_in_any_stage_ends_failed() {
    let (mut run, _) = UpdateRun::begin(None, 1, "linux".to_string(), "puppynet".to_string());
    let step = run.on_error("network down".to_string());
    assert_eq!(step.events.iter().map(label).collect::<Vec<_>>(), vec!["Failed network down"]);
    assert_eq!(run.stage(), UpdateStage::Done);
}

#[test]
fn tags_parse_like_u32() {
    assert_eq!(parse_u32("42"), Some(42));
    assert_eq!(parse_u32("+7"), Some(7));
    assert_eq!(parse_u32("4294967295"), Some(u32::MAX));
    assert_eq!(parse_u32("4294967296"), None);
    assert_eq!(parse_u32("v42"), None);
    assert_eq!(parse_u32(""), None);
    assert_eq!(parse_u32("+"), None);
    assert_eq!(parse_u32("-1"), None);
}

#[test]
fn asset_and_signature_selection() {
    assert_eq!(select_asset(&assets(), "linux"), Some(1));
    assert_eq!(select_asset(&assets(), "puppynet"), Some(0));
    assert_eq!(select_asset(&assets(), "bsd"), None);
    let files = vec!["a.sig".to_string(), "puppynet.exe.sig".to_string(), "puppynet.sig".to_string()];
    assert_eq!(select_signature(&files), Some(2));
    assert_eq!(select_signature(&vec!["x".to_string(), "b.sig".to_string()]), Some(1));
    assert_eq!(select_signature(&vec![".sig".to_string()]), None);
}

#[test]
fn remote_update_start_result() {
    let ok = update_result_of(Ok(()));
    assert!(ok.success);
    assert_eq!(ok.message, "Update started");
    let err = update_result_of(Err("busy".to_string()));
    assert!(!err.success);
    assert_eq!(err.message, "busy");
}

#[test]
fn malformed_key_is_reported() {
    assert_eq!(verify_signature("not a key", b"data", b"sig"), Err(SignatureError::InvalidKey));
}
