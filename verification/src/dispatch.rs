//! The request dispatcher: what each operation decides and changes.
//! Pure operations are answered against the store at once; the ones
//! that need a file, a dialog or the host configuration come back
//! as effects for the shell to perform, and the follow-up functions
//! here turn each effect's outcome into the response payload.

use vstd::prelude::*;
use crate::codec::{b64_decode, b64_decode_of, b64_encode, b64_encode_of};
use crate::models::{
    RequestInner, ResponsePayload, ShowImportFileDialog, ShowMessageDialog, ShowQuestionDialog,
    SingingVoiceKey,
};
use crate::store::{
    batch_lookup, key_views, missing_keys, retained_voices, voice_key_set, voice_lookup, Store,
};

verus! {

/// Work only the host shell can do: file and dialog traffic.
#[derive(Debug, PartialEq)]
pub enum Effect {
    ReadConfigFile,
    PickImportFile(ShowImportFileDialog),
    ReadFileAt(String),
    SaveProject(String),
    ShowMessage(ShowMessageDialog),
    AskQuestion(ShowQuestionDialog),
}

/// What handling one request comes to: an immediate payload, an
/// immediate failure, or an effect the shell must perform first.
#[derive(Debug, PartialEq)]
pub enum Outcome {
    Reply(ResponsePayload),
    Fail(String),
    Await(Effect),
}

/// A handled request: its outcome, and whether the mixdown engine
/// must recompute because voices or phrases changed.
pub struct Handled {
    pub outcome: Outcome,
    pub schedule_mix: bool,
}

/// The failure text for a question dialog with a button count the
/// protocol does not allow.
pub open spec fn button_count_message() -> Seq<char> {
    "The number of buttons must be 1 to 3"@
}

/// Whether every clip in a voice batch decodes.
pub open spec fn batch_decodes(b: Seq<(SingingVoiceKey, String)>) -> bool {
    forall|i: int| 0 <= i < b.len() ==> (#[trigger] b64_decode_of(b[i].1@)) is Some
}

/// The bytes a voice batch carries for a key once decoded: the
/// last entry under that key wins.
pub open spec fn decoded_batch_lookup(
    b: Seq<(SingingVoiceKey, String)>,
    k: Seq<char>,
) -> Option<Seq<u8>>
    decreases b.len(),
{
    if b.len() == 0 {
        None
    } else if b.last().0@ == k {
        Some(b64_decode_of(b.last().1@)->0)
    } else {
        decoded_batch_lookup(b.drop_last(), k)
    }
}

/// Nothing in the store moved.
pub open spec fn store_unchanged(pre: Store, post: Store) -> bool {
    &&& post.phrases@ == pre.phrases@
    &&& post.voices@ == pre.voices@
    &&& post.project@ == pre.project@
}

/// Dispatches one request against the store.  Every store mutation
/// happens here, atomically per request; errors leave the store
/// untouched.
pub fn handle_request(store: &mut Store, version: &String, req: RequestInner) -> (h: Handled)
    requires
        old(store).wf(),
    ensures
        final(store).wf(),
        match req {
            RequestInner::GetVersion => {
                &&& store_unchanged(*old(store), *final(store))
                &&& h.outcome matches Outcome::Reply(ResponsePayload::Text(v)) && v@ == version@
                &&& !h.schedule_mix
            },
            RequestInner::GetProjectName => {
                &&& store_unchanged(*old(store), *final(store))
                &&& h.outcome matches Outcome::Reply(ResponsePayload::Text(v)) && v@ == "VVVST"@
                &&& !h.schedule_mix
            },
            RequestInner::GetConfig => {
                &&& store_unchanged(*old(store), *final(store))
                &&& h.outcome matches Outcome::Await(Effect::ReadConfigFile)
                &&& !h.schedule_mix
            },
            RequestInner::GetProject => {
                &&& store_unchanged(*old(store), *final(store))
                &&& h.outcome matches Outcome::Reply(ResponsePayload::Text(v))
                    && v@ == old(store).project@
                &&& !h.schedule_mix
            },
            RequestInner::SetProject(p) => {
                &&& final(store).project@ == p@
                &&& final(store).phrases@ == old(store).phrases@
                &&& final(store).voices@ == old(store).voices@
                &&& h.outcome matches Outcome::Reply(ResponsePayload::Null)
                &&& !h.schedule_mix
            },
            RequestInner::SetPhrases(ps) => {
                &&& final(store).phrases@ == ps@
                &&& final(store).project@ == old(store).project@
                &&& final(store).voices@ == retained_voices(old(store).voices@, ps@)
                &&& h.outcome matches Outcome::Reply(ResponsePayload::Phrases(res))
                    && key_views(res.missing_voices@) == missing_keys(
                    ps@,
                    voice_key_set(old(store).voices@),
                )
                &&& h.schedule_mix
            },
            RequestInner::SetVoices(batch) => {
                if batch_decodes(batch@) {
                    &&& final(store).phrases@ == old(store).phrases@
                    &&& final(store).project@ == old(store).project@
                    &&& forall|k: Seq<char>| #[trigger] voice_lookup(final(store).voices@, k)
                        == match decoded_batch_lookup(batch@, k) {
                            Option::Some(d) => Some(d),
                            Option::None => voice_lookup(old(store).voices@, k),
                        }
                    &&& h.outcome matches Outcome::Reply(ResponsePayload::Null)
                    &&& h.schedule_mix
                } else {
                    &&& store_unchanged(*old(store), *final(store))
                    &&& h.outcome matches Outcome::Fail(_)
                    &&& !h.schedule_mix
                }
            },
            RequestInner::ShowMessageDialog(d) => {
                &&& store_unchanged(*old(store), *final(store))
                &&& h.outcome == Outcome::Await(Effect::ShowMessage(d))
                &&& !h.schedule_mix
            },
            RequestInner::ShowImportFileDialog(d) => {
                &&& store_unchanged(*old(store), *final(store))
                &&& h.outcome == Outcome::Await(Effect::PickImportFile(d))
                &&& !h.schedule_mix
            },
            RequestInner::ShowQuestionDialog(d) => {
                &&& store_unchanged(*old(store), *final(store))
                &&& if 1 <= d.buttons@.len() <= 3 {
                    h.outcome == Outcome::Await(Effect::AskQuestion(d))
                } else {
                    h.outcome matches Outcome::Fail(m) && m@ == button_count_message()
                }
                &&& !h.schedule_mix
            },
            RequestInner::ReadFile(path) => {
                &&& store_unchanged(*old(store), *final(store))
                &&& h.outcome == Outcome::Await(Effect::ReadFileAt(path))
                &&& !h.schedule_mix
            },
            RequestInner::ExportProject => {
                &&& store_unchanged(*old(store), *final(store))
                &&& h.outcome matches Outcome::Await(Effect::SaveProject(p))
                    && p@ == old(store).project@
                &&& !h.schedule_mix
            },
        },
{
    match req {
        RequestInner::GetVersion => Handled {
            outcome: Outcome::Reply(ResponsePayload::Text(version.clone())),
            schedule_mix: false,
        },
        RequestInner::GetProjectName => Handled {
            outcome: Outcome::Reply(ResponsePayload::Text(String::from_str(crate::project_name()))),
            schedule_mix: false,
        },
        RequestInner::GetConfig => Handled {
            outcome: Outcome::Await(Effect::ReadConfigFile),
            schedule_mix: false,
        },
        RequestInner::GetProject => Handled {
            outcome: Outcome::Reply(ResponsePayload::Text(store.project_snapshot())),
            schedule_mix: false,
        },
        RequestInner::SetProject(p) => {
            store.set_project(p);
            Handled { outcome: Outcome::Reply(ResponsePayload::Null), schedule_mix: false }
        },
        RequestInner::SetPhrases(ps) => {
            let missing = store.set_phrases(ps);
            Handled {
                outcome: Outcome::Reply(ResponsePayload::Phrases(
                    crate::models::SetPhraseResult { missing_voices: missing },
                )),
                schedule_mix: true,
            }
        },
        RequestInner::SetVoices(batch) => {
            match decode_batch(&batch) {
                Ok(decoded) => {
                    proof {
                        lemma_decoded_lookup(decoded@, batch@);
                    }
                    store.set_voices(decoded);
                    Handled {
                        outcome: Outcome::Reply(ResponsePayload::Null),
                        schedule_mix: true,
                    }
                },
                Err(m) => Handled { outcome: Outcome::Fail(m), schedule_mix: false },
            }
        },
        RequestInner::ShowMessageDialog(d) => Handled {
            outcome: Outcome::Await(Effect::ShowMessage(d)),
            schedule_mix: false,
        },
        RequestInner::ShowImportFileDialog(d) => Handled {
            outcome: Outcome::Await(Effect::PickImportFile(d)),
            schedule_mix: false,
        },
        RequestInner::ShowQuestionDialog(d) => {
            let n = d.buttons.len();
            if 1 <= n && n <= 3 {
                Handled { outcome: Outcome::Await(Effect::AskQuestion(d)), schedule_mix: false }
            } else {
                Handled {
                    outcome: Outcome::Fail(String::from_str(
                        "The number of buttons must be 1 to 3",
                    )),
                    schedule_mix: false,
                }
            }
        },
        RequestInner::ReadFile(path) => Handled {
            outcome: Outcome::Await(Effect::ReadFileAt(path)),
            schedule_mix: false,
        },
        RequestInner::ExportProject => Handled {
            outcome: Outcome::Await(Effect::SaveProject(store.project_snapshot())),
            schedule_mix: false,
        },
    }
}

/// Decodes every clip of a voice batch, or reports the first
/// failure with the store left for the caller to keep untouched.
fn decode_batch(batch: &Vec<(SingingVoiceKey, String)>) -> (r: Result<
    Vec<(SingingVoiceKey, Vec<u8>)>,
    String,
>)
    ensures
        r is Ok <==> batch_decodes(batch@),
        r matches Ok(d) ==> {
            &&& d@.len() == batch@.len()
            &&& forall|i: int| 0 <= i < d@.len()
                ==> (#[trigger] d@[i].0)@ == batch@[i].0@
                    && Some(d@[i].1@) == b64_decode_of(batch@[i].1@)
        },
{
    let mut out: Vec<(SingingVoiceKey, Vec<u8>)> = Vec::new();
    let mut i: usize = 0;
    while i < batch.len()
        invariant
            i <= batch@.len(),
            out@.len() == i,
            forall|j: int| 0 <= j < i ==> (#[trigger] b64_decode_of(batch@[j].1@)) is Some,
            forall|j: int| 0 <= j < i
                ==> (#[trigger] out@[j].0)@ == batch@[j].0@
                    && Some(out@[j].1@) == b64_decode_of(batch@[j].1@),
        decreases batch@.len() - i,
    {
        let key = &batch[i].0;
        let text = &batch[i].1;
        match b64_decode(text) {
            Ok(bytes) => {
                out.push((SingingVoiceKey(key.0.clone()), bytes));
            },
            Err(m) => {
                return Err(m);
            },
        }
        i += 1;
    }
    Ok(out)
}

/// Decoding a batch entry by entry decodes its lookup: the merged
/// view of the decoded pairs is the decoded view of the batch.
proof fn lemma_decoded_lookup(d: Seq<(SingingVoiceKey, Vec<u8>)>, b: Seq<(SingingVoiceKey, String)>)
    requires
        d.len() == b.len(),
        forall|i: int| 0 <= i < d.len()
            ==> (#[trigger] d[i].0)@ == b[i].0@ && Some(d[i].1@) == b64_decode_of(b[i].1@),
    ensures
        forall|k: Seq<char>| #[trigger] batch_lookup(d, k) == decoded_batch_lookup(b, k),
    decreases d.len(),
{
    if d.len() > 0 {
        lemma_decoded_lookup(d.drop_last(), b.drop_last());
        assert forall|k: Seq<char>| #[trigger] batch_lookup(d, k) == decoded_batch_lookup(b, k) by {
            assert(d[d.len() - 1].0@ == b[b.len() - 1].0@);
            assert(Some(d.last().1@) == b64_decode_of(b.last().1@));
            if d.last().0@ != k {
                assert(batch_lookup(d.drop_last(), k) == decoded_batch_lookup(b.drop_last(), k));
            }
        }
    }
}

/// The payload for a host-configuration read: the file's text, or
/// null where no configuration exists.
pub fn config_payload(content: Option<String>) -> (p: ResponsePayload)
    ensures
        match content {
            Option::Some(c) => p == ResponsePayload::Text(c),
            Option::None => p == ResponsePayload::Null,
        },
{
    match content {
        Option::Some(c) => ResponsePayload::Text(c),
        Option::None => ResponsePayload::Null,
    }
}

/// The payload for a file-open dialog: the chosen path, or null
/// where the user dismissed the dialog.
pub fn picked_file_payload(path: Option<String>) -> (p: ResponsePayload)
    ensures
        match path {
            Option::Some(c) => p == ResponsePayload::Text(c),
            Option::None => p == ResponsePayload::Null,
        },
{
    match path {
        Option::Some(c) => ResponsePayload::Text(c),
        Option::None => ResponsePayload::Null,
    }
}

/// The payload for a file read: its bytes, base64-encoded.
pub fn read_file_payload(bytes: &Vec<u8>) -> (p: ResponsePayload)
    ensures
        p matches ResponsePayload::Text(t) && t@ == b64_encode_of(bytes@),
{
    ResponsePayload::Text(b64_encode(bytes))
}

/// The payload for a project export: whether a path was chosen and
/// the project written.
pub fn export_payload(saved: bool) -> (p: ResponsePayload)
    ensures
        p == ResponsePayload::Bool(saved),
{
    ResponsePayload::Bool(saved)
}

/// What a question dialog handed back: the text of the chosen
/// custom button, or anything else, described.
#[derive(Debug, PartialEq)]
pub enum DialogAnswer {
    Custom(String),
    Other(String),
}

/// The index of the first button bearing a text, if any.
pub open spec fn position_of(bs: Seq<String>, t: Seq<char>) -> Option<int>
    decreases bs.len(),
{
    if bs.len() == 0 {
        None
    } else if bs[0]@ == t {
        Some(0)
    } else {
        match position_of(bs.drop_first(), t) {
            Option::Some(i) => Some(i + 1),
            Option::None => None,
        }
    }
}

/// The payload for an answered question dialog: the index of the
/// chosen button, null where the answer matches no button, and a
/// failure where the dialog returned an unexpected shape.
pub fn question_payload(buttons: &Vec<String>, answer: DialogAnswer) -> (r: Result<
    ResponsePayload,
    String,
>)
    ensures
        match answer {
            DialogAnswer::Custom(text) => match position_of(buttons@, text@) {
                Option::Some(i) => r matches Ok(ResponsePayload::Index(x)) && x as int == i,
                Option::None => r matches Ok(ResponsePayload::Null),
            },
            DialogAnswer::Other(desc) => r matches Err(m)
                && m@ == "Unexpected dialog result: "@ + desc@,
        },
{
    match &answer {
        DialogAnswer::Custom(text) => {
            proof {
                assert(buttons@.skip(0) =~= buttons@);
            }
            let mut i: usize = 0;
            while i < buttons.len()
                invariant
                    answer matches DialogAnswer::Custom(tt) && tt@ == text@,
                    i <= buttons@.len(),
                    forall|j: int| 0 <= j < i ==> buttons@[j]@ != text@,
                    position_of(buttons@, text@) == match position_of(
                        buttons@.skip(i as int),
                        text@,
                    ) {
                        Option::Some(p) => Some(p + i as int),
                        Option::None => None::<int>,
                    },
                decreases buttons@.len() - i,
            {
                proof {
                    assert(buttons@.skip(i as int)[0] == buttons@[i as int]);
                    assert(buttons@.skip(i as int).drop_first() =~= buttons@.skip(i as int + 1));
                }
                if buttons[i] == *text {
                    proof {
                        assert(buttons@.skip(i as int)[0]@ == text@);
                        assert(position_of(buttons@.skip(i as int), text@) == Some(0int));
                        assert(position_of(buttons@, text@) == Some(i as int));
                    }
                    return Ok(ResponsePayload::Index(i));
                }
                i += 1;
            }
            Ok(ResponsePayload::Null)
        },
        DialogAnswer::Other(desc) => {
            let mut m = String::new();
            m.append("Unexpected dialog result: ");
            m.append(desc.as_str());
            Err(m)
        },
    }
}

} // verus!
