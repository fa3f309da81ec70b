//! Behavior of the state store and the request/response bridge.

use vvvst::bridge::{Bridge, Submission};
use vvvst::models::{Phrase, Request, RequestId, RequestInner, ResponsePayload, SingingVoiceKey};
use vvvst::store::{find_voice, Store};

fn key(s: &str) -> SingingVoiceKey {
    SingingVoiceKey(String::from(s))
}

fn phrase(start_millis: i64, voice: &str) -> Phrase {
    Phrase { start_millis, voice: key(voice) }
}

#[test]
fn set_phrases_reports_missing_with_empty_store() {
    // two phrases referencing absent voices: both keys come back, in order
    let mut store = Store::new();
    let missing = store.set_phrases(vec![phrase(0, "a"), phrase(1000, "b")]);
    assert_eq!(missing, vec![key("a"), key("b")]);
    assert_eq!(store.voices.len(), 0);
    assert_eq!(store.phrases.len(), 2);
}

#[test]
fn set_phrases_deduplicates_missing_keys() {
    let mut store = Store::new();
    let missing = store.set_phrases(vec![phrase(0, "a"), phrase(1, "a"), phrase(2, "b")]);
    assert_eq!(missing, vec![key("a"), key("b")]);
}

#[test]
fn set_voices_then_set_phrases_evicts_unreferenced() {
    let mut store = Store::new();
    store.set_voices(vec![(key("a"), vec![1, 2, 3])]);
    let missing = store.set_phrases(vec![phrase(0, "a")]);
    assert!(missing.is_empty());
    assert!(find_voice(&store.voices, &key("a")).is_some());

    let missing = store.set_phrases(vec![phrase(0, "c")]);
    assert_eq!(missing, vec![key("c")]);
    assert!(find_voice(&store.voices, &key("a")).is_none());
    assert_eq!(store.voices.len(), 0);
}

#[test]
fn set_phrases_twice_evicts_nothing_more() {
    let mut store = Store::new();
    store.set_voices(vec![(key("a"), vec![1]), (key("b"), vec![2])]);
    let phrases = vec![phrase(0, "a")];
    store.set_phrases(phrases.clone());
    assert_eq!(store.voices.len(), 1);
    let missing = store.set_phrases(phrases);
    assert!(missing.is_empty());
    assert_eq!(store.voices.len(), 1);
    assert!(find_voice(&store.voices, &key("a")).is_some());
}

#[test]
fn set_voices_overwrites_by_key() {
    let mut store = Store::new();
    store.set_voices(vec![(key("a"), vec![1]), (key("a"), vec![2, 3])]);
    assert_eq!(store.voices.len(), 1);
    assert_eq!(find_voice(&store.voices, &key("a")).unwrap(), &vec![2u8, 3]);
    store.set_voices(vec![(key("a"), vec![9])]);
    assert_eq!(find_voice(&store.voices, &key("a")).unwrap(), &vec![9u8]);
}

#[test]
fn project_blob_round_trips() {
    let mut store = Store::new();
    assert_eq!(store.project_snapshot(), String::new());
    store.set_project(String::from("{\"tracks\":[]}"));
    assert_eq!(store.project_snapshot(), String::from("{\"tracks\":[]}"));
}

#[test]
fn bridge_gives_exactly_one_response_per_request() {
    // a parsed request is dispatched, completed once, drained once
    let mut bridge = Bridge::new();
    let req = Request { request_id: RequestId(7), inner: RequestInner::GetVersion };
    let dispatched = bridge.submit(Submission::Parsed(req));
    assert!(dispatched.is_some());
    assert_eq!(dispatched.unwrap().request_id, RequestId(7));
    // nothing is drained before the handler finishes
    assert!(bridge.drain().is_empty());
    bridge.complete(RequestId(7), Ok(ResponsePayload::Null));
    let drained = bridge.drain();
    assert_eq!(drained.len(), 1);
    assert_eq!(drained[0].request_id, RequestId(7));
    assert_eq!(drained[0].payload, Ok(ResponsePayload::Null));
    // and only once
    assert!(bridge.drain().is_empty());
}

#[test]
fn bridge_answers_malformed_message_with_recovered_id() {
    let mut bridge = Bridge::new();
    let dispatched = bridge.submit(Submission::Malformed {
        recovered_id: Some(3),
        error: String::from("boom"),
    });
    assert!(dispatched.is_none());
    let drained = bridge.drain();
    assert_eq!(drained.len(), 1);
    assert_eq!(drained[0].request_id, RequestId(3));
    assert_eq!(
        drained[0].payload,
        Err(String::from("failed to parse request: boom"))
    );
}

#[test]
fn bridge_drops_malformed_message_without_id() {
    let mut bridge = Bridge::new();
    let dispatched = bridge.submit(Submission::Malformed {
        recovered_id: None,
        error: String::from("boom"),
    });
    assert!(dispatched.is_none());
    assert!(bridge.drain().is_empty());
}

#[test]
fn bridge_matches_responses_by_id_not_order() {
    let mut bridge = Bridge::new();
    bridge.submit(Submission::Parsed(Request {
        request_id: RequestId(1),
        inner: RequestInner::GetVersion,
    }));
    bridge.submit(Submission::Parsed(Request {
        request_id: RequestId(2),
        inner: RequestInner::GetProjectName,
    }));
    // completion order differs from request order
    bridge.complete(RequestId(2), Ok(ResponsePayload::Bool(true)));
    bridge.complete(RequestId(1), Err(String::from("late failure")));
    let drained = bridge.drain();
    assert_eq!(drained.len(), 2);
    assert_eq!(drained[0].request_id, RequestId(2));
    assert_eq!(drained[1].request_id, RequestId(1));
}

#[test]
fn empty_phrase_list_evicts_every_voice() {
    let mut store = Store::new();
    store.set_voices(vec![(key("a"), vec![1]), (key("b"), vec![2])]);
    let missing = store.set_phrases(vec![]);
    assert!(missing.is_empty());
    assert!(store.voices.is_empty());
    assert!(store.phrases.is_empty());
}

#[test]
fn empty_voice_batch_changes_nothing() {
    let mut store = Store::new();
    store.set_voices(vec![(key("a"), vec![1])]);
    store.set_voices(vec![]);
    assert_eq!(store.voices.len(), 1);
    assert_eq!(find_voice(&store.voices, &key("a")).unwrap(), &vec![1u8]);
}
