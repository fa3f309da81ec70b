//! Behavior of the dispatcher, the effect follow-ups, and the
//! asset protocol.

use vvvst::assets::{extension_of, serve_asset};
use vvvst::dispatch::{
    config_payload, export_payload, handle_request, picked_file_payload, question_payload,
    read_file_payload, DialogAnswer, Effect, Outcome,
};
use vvvst::models::{
    DialogType, Phrase, RequestInner, ResponsePayload, SetPhraseResult, ShowImportFileDialog,
    ShowQuestionDialog, SingingVoiceKey,
};
use vvvst::store::{find_voice, Store};

fn key(s: &str) -> SingingVoiceKey {
    SingingVoiceKey(String::from(s))
}

fn version() -> String {
    String::from("0.1.0")
}

#[test]
fn get_version_and_project_name_are_static() {
    let mut store = Store::new();
    let h = handle_request(&mut store, &version(), RequestInner::GetVersion);
    assert_eq!(h.outcome, Outcome::Reply(ResponsePayload::Text(String::from("0.1.0"))));
    assert!(!h.schedule_mix);
    let h = handle_request(&mut store, &version(), RequestInner::GetProjectName);
    assert_eq!(h.outcome, Outcome::Reply(ResponsePayload::Text(String::from("VVVST"))));
}

#[test]
fn project_requests_read_and_replace_the_blob() {
    let mut store = Store::new();
    let h = handle_request(
        &mut store,
        &version(),
        RequestInner::SetProject(String::from("proj-1")),
    );
    assert_eq!(h.outcome, Outcome::Reply(ResponsePayload::Null));
    let h = handle_request(&mut store, &version(), RequestInner::GetProject);
    assert_eq!(h.outcome, Outcome::Reply(ResponsePayload::Text(String::from("proj-1"))));
    let h = handle_request(&mut store, &version(), RequestInner::ExportProject);
    assert_eq!(h.outcome, Outcome::Await(Effect::SaveProject(String::from("proj-1"))));
}

#[test]
fn set_phrases_request_returns_missing_voices() {
    let mut store = Store::new();
    let phrases = vec![
        Phrase { start_millis: 0, voice: key("a") },
        Phrase { start_millis: 1000, voice: key("b") },
    ];
    let h = handle_request(&mut store, &version(), RequestInner::SetPhrases(phrases));
    assert_eq!(
        h.outcome,
        Outcome::Reply(ResponsePayload::Phrases(SetPhraseResult {
            missing_voices: vec![key("a"), key("b")],
        }))
    );
    assert!(h.schedule_mix);
    assert!(store.voices.is_empty());
}

#[test]
fn set_voices_request_decodes_base64_clips() {
    let mut store = Store::new();
    // "AAEC" is the standard base64 of the bytes 0, 1, 2
    let batch = vec![(key("a"), String::from("AAEC"))];
    let h = handle_request(&mut store, &version(), RequestInner::SetVoices(batch));
    assert_eq!(h.outcome, Outcome::Reply(ResponsePayload::Null));
    assert!(h.schedule_mix);
    assert_eq!(find_voice(&store.voices, &key("a")).unwrap(), &vec![0u8, 1, 2]);
}

#[test]
fn set_voices_request_fails_whole_on_bad_base64() {
    let mut store = Store::new();
    let batch = vec![
        (key("a"), String::from("AAEC")),
        (key("b"), String::from("!!not base64!!")),
    ];
    let h = handle_request(&mut store, &version(), RequestInner::SetVoices(batch));
    assert!(matches!(h.outcome, Outcome::Fail(_)));
    assert!(!h.schedule_mix);
    // the store is left unmutated: not even the first clip landed
    assert!(store.voices.is_empty());
}

#[test]
fn question_dialog_rejects_bad_button_counts() {
    let mut store = Store::new();
    let dialog = ShowQuestionDialog {
        kind: DialogType::Question,
        title: String::from("t"),
        message: String::from("m"),
        buttons: vec![
            String::from("a"),
            String::from("b"),
            String::from("c"),
            String::from("d"),
        ],
        cancel_id: None,
        default_id: None,
    };
    let h = handle_request(
        &mut store,
        &version(),
        RequestInner::ShowQuestionDialog(dialog.clone()),
    );
    assert_eq!(
        h.outcome,
        Outcome::Fail(String::from("The number of buttons must be 1 to 3"))
    );

    let mut ok = dialog;
    ok.buttons = vec![String::from("yes")];
    let h = handle_request(
        &mut store,
        &version(),
        RequestInner::ShowQuestionDialog(ok.clone()),
    );
    assert_eq!(h.outcome, Outcome::Await(Effect::AskQuestion(ok)));

    let none = ShowQuestionDialog {
        kind: DialogType::Question,
        title: String::from("t"),
        message: String::from("m"),
        buttons: vec![],
        cancel_id: None,
        default_id: None,
    };
    let h = handle_request(&mut store, &version(), RequestInner::ShowQuestionDialog(none));
    assert_eq!(
        h.outcome,
        Outcome::Fail(String::from("The number of buttons must be 1 to 3"))
    );
}

#[test]
fn dialog_and_file_requests_become_effects() {
    let mut store = Store::new();
    let d = ShowImportFileDialog {
        title: String::from("pick"),
        name: Some(String::from("Audio")),
        filters: Some(vec![String::from("wav")]),
    };
    let h = handle_request(
        &mut store,
        &version(),
        RequestInner::ShowImportFileDialog(d.clone()),
    );
    assert_eq!(h.outcome, Outcome::Await(Effect::PickImportFile(d)));
    let h = handle_request(
        &mut store,
        &version(),
        RequestInner::ReadFile(String::from("/tmp/x.wav")),
    );
    assert_eq!(h.outcome, Outcome::Await(Effect::ReadFileAt(String::from("/tmp/x.wav"))));
    let h = handle_request(&mut store, &version(), RequestInner::GetConfig);
    assert_eq!(h.outcome, Outcome::Await(Effect::ReadConfigFile));
}

#[test]
fn effect_follow_ups_build_payloads() {
    assert_eq!(config_payload(None), ResponsePayload::Null);
    assert_eq!(
        config_payload(Some(String::from("cfg"))),
        ResponsePayload::Text(String::from("cfg"))
    );
    assert_eq!(picked_file_payload(None), ResponsePayload::Null);
    assert_eq!(
        picked_file_payload(Some(String::from("/a"))),
        ResponsePayload::Text(String::from("/a"))
    );
    assert_eq!(export_payload(true), ResponsePayload::Bool(true));
    assert_eq!(export_payload(false), ResponsePayload::Bool(false));
    // the file's bytes come back base64-encoded, not raw
    assert_eq!(
        read_file_payload(&vec![0, 1, 2]),
        ResponsePayload::Text(String::from("AAEC"))
    );
    assert_eq!(read_file_payload(&vec![]), ResponsePayload::Text(String::new()));
}

#[test]
fn question_answers_map_to_button_indices() {
    let buttons = vec![String::from("Yes"), String::from("No")];
    assert_eq!(
        question_payload(&buttons, DialogAnswer::Custom(String::from("No"))),
        Ok(ResponsePayload::Index(1))
    );
    assert_eq!(
        question_payload(&buttons, DialogAnswer::Custom(String::from("Yes"))),
        Ok(ResponsePayload::Index(0))
    );
    assert_eq!(
        question_payload(&buttons, DialogAnswer::Custom(String::from("Maybe"))),
        Ok(ResponsePayload::Null)
    );
    assert_eq!(
        question_payload(&buttons, DialogAnswer::Other(String::from("Ok"))),
        Err(String::from("Unexpected dialog result: Ok"))
    );
}

#[test]
fn assets_are_served_with_inferred_content_type() {
    let r = serve_asset(&b"/index.html".to_vec(), Some(b"<html>".to_vec()));
    assert_eq!(r.status, 200);
    assert_eq!(r.content_type, String::from("text/html"));
    assert_eq!(r.body, b"<html>".to_vec());

    let r = serve_asset(&b"/app.js".to_vec(), Some(b"x".to_vec()));
    assert_eq!(r.content_type, String::from("text/javascript"));

    // an unknown extension falls back to the generic byte type
    let r = serve_asset(&b"/blob.qqzz".to_vec(), Some(b"x".to_vec()));
    assert_eq!(r.content_type, String::from("application/octet-stream"));

    let r = serve_asset(&b"/missing.html".to_vec(), None);
    assert_eq!(r.status, 404);
    assert!(r.body.is_empty());
    assert!(r.content_type.is_empty());
}

#[test]
fn path_extensions_are_taken_from_last_segment() {
    assert_eq!(extension_of(&b"/a/b.css".to_vec()), b"css".to_vec());
    assert_eq!(extension_of(&b"/a.b/c".to_vec()), b"".to_vec());
    assert_eq!(extension_of(&b"archive.tar.gz".to_vec()), b"gz".to_vec());
    assert_eq!(extension_of(&b"noext".to_vec()), b"".to_vec());
}

#[test]
fn message_dialog_request_becomes_effect() {
    let mut store = Store::new();
    let d = vvvst::models::ShowMessageDialog {
        kind: DialogType::Error,
        title: String::from("t"),
        message: String::from("m"),
    };
    let h = handle_request(
        &mut store,
        &version(),
        RequestInner::ShowMessageDialog(d.clone()),
    );
    assert_eq!(h.outcome, Outcome::Await(Effect::ShowMessage(d)));
    assert!(!h.schedule_mix);
}
