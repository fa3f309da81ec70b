//! Data model of the request/response protocol and of the stored
//! project state: phrases, voice clips, dialogs, envelopes.

use vstd::prelude::*;

verus! {

/// Opaque identifier of one pre-rendered voice clip.
#[derive(Debug, Clone, PartialEq, Eq, Hash)]
pub struct SingingVoiceKey(pub String);

impl View for SingingVoiceKey {
    type V = Seq<char>;

    open spec fn view(&self) -> Seq<char> {
        self.0@
    }
}

impl SingingVoiceKey {
    /// Key equality, meaning equality of the underlying text.
    pub fn key_eq(&self, other: &SingingVoiceKey) -> (r: bool)
        ensures
            r == (self@ == other@),
    {
        self.0 == other.0
    }
}

/// Identifier correlating a response with the request that caused it.
#[derive(Debug, Clone, Copy, PartialEq, Eq, Hash, Structural)]
pub struct RequestId(pub u32);

/// A scheduled placement of one voice clip on the timeline.
/// The start time is kept in milliseconds so placements are exact.
#[derive(Debug, Clone, PartialEq)]
pub struct Phrase {
    pub start_millis: i64,
    pub voice: SingingVoiceKey,
}

/// Severity of a native dialog.
#[derive(Debug, Clone, Copy, PartialEq, Eq, Structural)]
pub enum DialogType {
    Plain,
    Info,
    Warning,
    Error,
    Question,
}

/// Arguments of a message dialog request: acknowledged, no answer.
#[derive(Debug, Clone, PartialEq)]
pub struct ShowMessageDialog {
    pub kind: DialogType,
    pub title: String,
    pub message: String,
}

/// Arguments of a question dialog request: one to three custom
/// buttons, answered with the index of the chosen button.
#[derive(Debug, Clone, PartialEq)]
pub struct ShowQuestionDialog {
    pub kind: DialogType,
    pub title: String,
    pub message: String,
    pub buttons: Vec<String>,
    pub cancel_id: Option<usize>,
    pub default_id: Option<usize>,
}

/// Arguments of a file-open dialog request, with an optional
/// named extension filter.
#[derive(Debug, Clone, PartialEq)]
pub struct ShowImportFileDialog {
    pub title: String,
    pub name: Option<String>,
    pub filters: Option<Vec<String>>,
}

/// The operations the UI can request, with their payloads.
#[derive(Debug, Clone, PartialEq)]
pub enum RequestInner {
    GetVersion,
    GetProjectName,
    GetConfig,
    GetProject,
    SetProject(String),
    SetPhrases(Vec<Phrase>),
    SetVoices(Vec<(SingingVoiceKey, String)>),
    ShowMessageDialog(ShowMessageDialog),
    ShowImportFileDialog(ShowImportFileDialog),
    ShowQuestionDialog(ShowQuestionDialog),
    ReadFile(String),
    ExportProject,
}

/// An envelope as parsed from one UI message.
#[derive(Debug, Clone, PartialEq)]
pub struct Request {
    pub request_id: RequestId,
    pub inner: RequestInner,
}

/// What a set-phrases request answers: the keys its new phrase
/// list references that have no clip in the store yet.
#[derive(Debug, Clone, PartialEq)]
pub struct SetPhraseResult {
    pub missing_voices: Vec<SingingVoiceKey>,
}

/// A successful handler result, as handed back to the UI.
#[derive(Debug, Clone, PartialEq)]
pub enum ResponsePayload {
    Null,
    Bool(bool),
    Text(String),
    Index(usize),
    Phrases(SetPhraseResult),
}

/// The envelope sent back for one request: its id and either a
/// payload or a failure message.
#[derive(Debug, PartialEq)]
pub struct Response {
    pub request_id: RequestId,
    pub payload: Result<ResponsePayload, String>,
}

} // verus!
