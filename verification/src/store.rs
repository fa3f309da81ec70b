//! The state store: the concurrency-safe home of the phrase list,
//! the voice clips and the project blob.  The store itself is plain
//! data; the host wraps each field in its own lock and routes every
//! mutation through the bridge, so the functions here describe one
//! logical step against one consistent snapshot.

use vstd::prelude::*;
use vstd::pervasive::VecAdditionalExecFns;
use crate::models::{Phrase, SingingVoiceKey};

verus! {

/// One stored voice clip: its key and its raw encoded audio bytes.
pub struct Voice {
    pub key: SingingVoiceKey,
    pub data: Vec<u8>,
}

/// Canonical project state: phrase list, voice clips, project blob.
pub struct Store {
    pub phrases: Vec<Phrase>,
    pub voices: Vec<Voice>,
    pub project: String,
}

/// The views of the keys in a key list.
pub open spec fn key_views(ks: Seq<SingingVoiceKey>) -> Seq<Seq<char>> {
    ks.map_values(|k: SingingVoiceKey| k@)
}

/// The keys of the stored clips, in storage order.
pub open spec fn voice_key_seq(vs: Seq<Voice>) -> Seq<Seq<char>> {
    vs.map_values(|v: Voice| v.key@)
}

/// The set of keys that have a clip in the store.
pub open spec fn voice_key_set(vs: Seq<Voice>) -> Set<Seq<char>> {
    voice_key_seq(vs).to_set()
}

/// The set of keys the phrase list references.
pub open spec fn referenced_keys(ps: Seq<Phrase>) -> Set<Seq<char>> {
    ps.map_values(|p: Phrase| p.voice@).to_set()
}

/// No two stored clips share a key.
pub open spec fn unique_keys(vs: Seq<Voice>) -> bool {
    forall|i: int, j: int| 0 <= i < j < vs.len() ==> vs[i].key@ != vs[j].key@
}

/// The clips that survive a phrase-list replacement: exactly those
/// whose key the new list references, in storage order.
pub open spec fn retained_voices(vs: Seq<Voice>, ps: Seq<Phrase>) -> Seq<Voice> {
    vs.filter(|v: Voice| referenced_keys(ps).contains(v.key@))
}

/// The keys a phrase-list replacement evicts: those stored but no
/// longer referenced.
pub open spec fn evicted_keys(vs: Seq<Voice>, ps: Seq<Phrase>) -> Set<Seq<char>> {
    voice_key_set(vs).difference(referenced_keys(ps))
}

/// The keys a phrase list references that are not in `present`, in
/// order of first reference, without duplicates.
pub open spec fn missing_keys(ps: Seq<Phrase>, present: Set<Seq<char>>) -> Seq<Seq<char>>
    decreases ps.len(),
{
    if ps.len() == 0 {
        Seq::empty()
    } else {
        let prefix = missing_keys(ps.drop_last(), present);
        let k = ps.last().voice@;
        if present.contains(k) || prefix.contains(k) {
            prefix
        } else {
            prefix.push(k)
        }
    }
}

/// The bytes stored under a key, if any (keys are unique, so the
/// first match is the only one).
pub open spec fn voice_lookup(vs: Seq<Voice>, k: Seq<char>) -> Option<Seq<u8>>
    decreases vs.len(),
{
    if vs.len() == 0 {
        None
    } else if vs[0].key@ == k {
        Some(vs[0].data@)
    } else {
        voice_lookup(vs.drop_first(), k)
    }
}

impl Store {
    /// The store's invariant: clip keys are unique.
    pub open spec fn wf(self) -> bool {
        unique_keys(self.voices@)
    }

    /// An empty store: no phrases, no clips, empty project blob.
    pub fn new() -> (s: Store)
        ensures
            s.wf(),
            s.phrases@ =~= Seq::<Phrase>::empty(),
            s.voices@ =~= Seq::<Voice>::empty(),
            s.project@ =~= Seq::<char>::empty(),
    {
        Store { phrases: Vec::new(), voices: Vec::new(), project: String::new() }
    }

    /// Replaces the project blob wholesale.
    pub fn set_project(&mut self, project: String)
        ensures
            final(self).project@ == project@,
            final(self).phrases@ == old(self).phrases@,
            final(self).voices@ == old(self).voices@,
    {
        self.project = project;
    }

    /// A copy of the project blob, for reads and for export.
    pub fn project_snapshot(&self) -> (r: String)
        ensures
            r@ == self.project@,
    {
        self.project.clone()
    }

    /// Merges a batch of clips into the store, keyed by voice key.
    /// Later batch entries overwrite earlier ones; keys not in the
    /// batch keep their stored bytes.
    pub fn set_voices(&mut self, batch: Vec<(SingingVoiceKey, Vec<u8>)>)
        requires
            old(self).wf(),
        ensures
            final(self).wf(),
            final(self).phrases@ == old(self).phrases@,
            final(self).project@ == old(self).project@,
            forall|k: Seq<char>| #[trigger] voice_lookup(final(self).voices@, k)
                == merged_lookup(old(self).voices@, batch@, k),
            voice_key_set(final(self).voices@)
                =~= voice_key_set(old(self).voices@).union(batch_key_set(batch@)),
    {
        let ghost old_voices: Seq<Voice> = self.voices@;
        let ghost orig: Seq<(SingingVoiceKey, Vec<u8>)> = batch@;
        let mut batch = batch;
        let mut i: usize = 0;
        while i < batch.len()
            invariant
                i <= batch.len(),
                batch@.len() == orig.len(),
                forall|j: int| i <= j < orig.len() ==> batch@[j] == orig[j],
                old_voices == old(self).voices@,
                self.phrases@ == old(self).phrases@,
                self.project == old(self).project,
                unique_keys(self.voices@),
                forall|k: Seq<char>| #[trigger] voice_lookup(self.voices@, k)
                    == merged_lookup(old_voices, orig.take(i as int), k),
            decreases batch.len() - i,
        {
            let mut taken: (SingingVoiceKey, Vec<u8>) = (SingingVoiceKey(String::new()), Vec::new());
            batch.set_and_swap(i, &mut taken);
            let ghost tg = taken;
            let (key, data) = taken;
            upsert(&mut self.voices, key, data);
            proof {
                assert(tg == orig[i as int]);
                assert(orig.take(i as int + 1).drop_last() =~= orig.take(i as int));
                assert(orig.take(i as int + 1).last() == orig[i as int]);
                assert forall|k: Seq<char>| #[trigger] voice_lookup(self.voices@, k)
                    == merged_lookup(old_voices, orig.take(i as int + 1), k) by {
                    if k != tg.0@ {
                        assert(batch_lookup(orig.take(i as int + 1), k)
                            == batch_lookup(orig.take(i as int), k));
                    }
                }
            }
            i += 1;
        }
        proof {
            assert(orig.take(orig.len() as int) =~= orig);
            assert forall|k: Seq<char>| #[trigger] voice_key_set(self.voices@).contains(k)
                <==> voice_key_set(old_voices).union(batch_key_set(orig)).contains(k) by {
                lemma_lookup_key_set(self.voices@, k);
                lemma_lookup_key_set(old_voices, k);
                lemma_batch_lookup_key_set(orig, k);
            }
            assert(voice_key_set(self.voices@)
                =~= voice_key_set(old_voices).union(batch_key_set(orig)));
        }
    }

    /// Replaces the phrase list atomically.  Returns the keys the new
    /// list references that have no stored clip, in order of first
    /// reference; evicts every stored clip the new list no longer
    /// references, both computed against the same snapshot.
    pub fn set_phrases(&mut self, new_phrases: Vec<Phrase>) -> (missing: Vec<SingingVoiceKey>)
        requires
            old(self).wf(),
        ensures
            final(self).wf(),
            final(self).phrases@ == new_phrases@,
            final(self).project@ == old(self).project@,
            final(self).voices@ == retained_voices(old(self).voices@, new_phrases@),
            key_views(missing@) == missing_keys(new_phrases@, voice_key_set(old(self).voices@)),
    {
        let mut missing: Vec<SingingVoiceKey> = Vec::new();
        let ghost present: Set<Seq<char>> = voice_key_set(self.voices@);
        let mut i: usize = 0;
        while i < new_phrases.len()
            invariant
                i <= new_phrases.len(),
                self.voices@ == old(self).voices@,
                self.phrases@ == old(self).phrases@,
                self.project == old(self).project,
                present == voice_key_set(self.voices@),
                key_views(missing@) == missing_keys(new_phrases@.take(i as int), present),
            decreases new_phrases.len() - i,
        {
            let key = &new_phrases[i].voice;
            let absent = !has_key(&self.voices, key);
            let fresh_in_list = !key_list_contains(&missing, key);
            proof {
                assert(new_phrases@.take(i as int + 1).drop_last() =~= new_phrases@.take(i as int));
                assert(new_phrases@.take(i as int + 1).last() == new_phrases@[i as int]);
            }
            if absent && fresh_in_list {
                let k = SingingVoiceKey(key.0.clone());
                missing.push(k);
                proof {
                    assert(key_views(missing@) =~= key_views(missing@.drop_last()).push(key@));
                }
            }
            i += 1;
        }
        proof {
            assert(new_phrases@.take(new_phrases@.len() as int) =~= new_phrases@);
        }

        let ghost old_voices: Seq<Voice> = self.voices@;
        let mut rest: Vec<Voice> = Vec::new();
        core::mem::swap(&mut self.voices, &mut rest);
        let mut j: usize = 0;
        while j < rest.len()
            invariant
                j <= rest.len(),
                rest@.len() == old_voices.len(),
                old_voices == old(self).voices@,
                self.phrases@ == old(self).phrases@,
                self.project == old(self).project,
                forall|k: int| j <= k < old_voices.len() ==> rest@[k] == old_voices[k],
                self.voices@ == retained_voices(old_voices.take(j as int), new_phrases@),
            decreases rest.len() - j,
        {
            let mut taken = Voice { key: SingingVoiceKey(String::new()), data: Vec::new() };
            rest.set_and_swap(j, &mut taken);
            let keep = references(&new_phrases, &taken.key);
            if keep {
                self.voices.push(taken);
            }
            proof {
                reveal(Seq::filter);
                assert(old_voices.take(j as int + 1).drop_last() =~= old_voices.take(j as int));
                assert(old_voices.take(j as int + 1).last() == old_voices[j as int]);
            }
            j += 1;
        }
        proof {
            assert(old_voices.take(old_voices.len() as int) =~= old_voices);
        }
        self.phrases = new_phrases;
        proof {
            lemma_retained_unique(old_voices, self.phrases@);
        }
        missing
    }
}

/// The bytes a voice batch carries for a key: the last entry under
/// that key wins, as later entries overwrite earlier ones.
pub open spec fn batch_lookup(b: Seq<(SingingVoiceKey, Vec<u8>)>, k: Seq<char>) -> Option<Seq<u8>>
    decreases b.len(),
{
    if b.len() == 0 {
        None
    } else if b.last().0@ == k {
        Some(b.last().1@)
    } else {
        batch_lookup(b.drop_last(), k)
    }
}

/// The set of keys a voice batch carries.
pub open spec fn batch_key_set(b: Seq<(SingingVoiceKey, Vec<u8>)>) -> Set<Seq<char>> {
    b.map_values(|e: (SingingVoiceKey, Vec<u8>)| e.0@).to_set()
}

/// What a merge leaves under a key: the batch's bytes where the
/// batch carries the key, the stored bytes otherwise.
pub open spec fn merged_lookup(
    vs: Seq<Voice>,
    b: Seq<(SingingVoiceKey, Vec<u8>)>,
    k: Seq<char>,
) -> Option<Seq<u8>> {
    match batch_lookup(b, k) {
        Some(d) => Some(d),
        None => voice_lookup(vs, k),
    }
}

/// A key looks up to bytes exactly when the store holds it.
pub proof fn lemma_lookup_key_set(vs: Seq<Voice>, k: Seq<char>)
    ensures
        voice_lookup(vs, k) is Some <==> voice_key_set(vs).contains(k),
    decreases vs.len(),
{
    lemma_voice_key_contains(vs, k);
    if vs.len() > 0 {
        lemma_lookup_key_set(vs.drop_first(), k);
        lemma_voice_key_contains(vs.drop_first(), k);
        if vs[0].key@ != k && (exists|i: int| 0 <= i < vs.len() && vs[i].key@ == k) {
            let i = choose|i: int| 0 <= i < vs.len() && vs[i].key@ == k;
            assert(vs.drop_first()[i - 1].key@ == k);
        }
    }
}

/// A key a batch carries looks up to bytes in it.
pub proof fn lemma_batch_lookup_key_set(b: Seq<(SingingVoiceKey, Vec<u8>)>, k: Seq<char>)
    ensures
        batch_lookup(b, k) is Some <==> batch_key_set(b).contains(k),
    decreases b.len(),
{
    let m = b.map_values(|e: (SingingVoiceKey, Vec<u8>)| e.0@);
    if b.len() == 0 {
        assert(!m.contains(k));
    } else {
        lemma_batch_lookup_key_set(b.drop_last(), k);
        let mp = b.drop_last().map_values(|e: (SingingVoiceKey, Vec<u8>)| e.0@);
        assert(m.contains(k) <==> (mp.contains(k) || b.last().0@ == k)) by {
            if mp.contains(k) {
                let i = choose|i: int| 0 <= i < mp.len() && mp[i] == k;
                assert(m[i] == k);
            }
            if b.last().0@ == k {
                assert(m[m.len() - 1] == k);
            }
            if m.contains(k) {
                let i = choose|i: int| 0 <= i < m.len() && m[i] == k;
                if i < m.len() - 1 {
                    assert(mp[i] == k);
                }
            }
        }
        assert(mp.to_set().contains(k) == mp.contains(k));
    }
}

/// Appending a clip with a fresh key leaves every other lookup alone.
proof fn lemma_lookup_push(vs: Seq<Voice>, v: Voice, k: Seq<char>)
    requires
        voice_lookup(vs, v.key@) is None,
    ensures
        voice_lookup(vs.push(v), k) == if k == v.key@ {
            Some(v.data@)
        } else {
            voice_lookup(vs, k)
        },
    decreases vs.len(),
{
    if vs.len() == 0 {
        assert(vs.push(v)[0] == v);
        assert(vs.push(v).drop_first() =~= Seq::<Voice>::empty());
    } else {
        assert(vs.push(v)[0] == vs[0]);
        assert(vs.push(v).drop_first() =~= vs.drop_first().push(v));
        lemma_lookup_push(vs.drop_first(), v, k);
    }
}

/// Overwriting the clip at a key's index rewrites that key's bytes
/// and leaves every other lookup alone.
proof fn lemma_lookup_update(vs: Seq<Voice>, idx: int, v: Voice, k: Seq<char>)
    requires
        unique_keys(vs),
        0 <= idx < vs.len(),
        vs[idx].key@ == v.key@,
    ensures
        voice_lookup(vs.update(idx, v), k) == if k == v.key@ {
            Some(v.data@)
        } else {
            voice_lookup(vs, k)
        },
    decreases vs.len(),
{
    let nv = vs.update(idx, v);
    if idx == 0 {
        assert(nv[0] == v);
        assert(nv.drop_first() =~= vs.drop_first());
    } else {
        assert(nv[0] == vs[0]);
        assert(vs[0].key@ != vs[idx].key@);
        assert(nv.drop_first() =~= vs.drop_first().update(idx - 1, v));
        assert(unique_keys(vs.drop_first())) by {
            assert forall|i: int, j: int|
                0 <= i < j < vs.drop_first().len()
                implies vs.drop_first()[i].key@ != vs.drop_first()[j].key@ by {
                assert(vs[i + 1].key@ != vs[j + 1].key@);
            }
        }
        lemma_lookup_update(vs.drop_first(), idx - 1, v, k);
    }
}

/// Inserts or overwrites one clip, keyed by its key.
fn upsert(voices: &mut Vec<Voice>, key: SingingVoiceKey, data: Vec<u8>)
    requires
        unique_keys(old(voices)@),
    ensures
        unique_keys(final(voices)@),
        forall|k: Seq<char>| #[trigger] voice_lookup(final(voices)@, k) == if k == key@ {
            Some(data@)
        } else {
            voice_lookup(old(voices)@, k)
        },
{
    let ghost pre = voices@;
    let mut i: usize = 0;
    while i < voices.len()
        invariant
            i <= voices.len(),
            voices@ == pre,
            pre == old(voices)@,
            unique_keys(pre),
            forall|j: int| 0 <= j < i ==> voices@[j].key@ != key@,
        decreases voices.len() - i,
    {
        if voices[i].key.key_eq(&key) {
            let v = Voice { key, data };
            voices.set(i, v);
            proof {
                assert forall|k: Seq<char>| #[trigger] voice_lookup(voices@, k) == if k == pre[i as int].key@ {
                    Some(voices@[i as int].data@)
                } else {
                    voice_lookup(pre, k)
                } by {
                    lemma_lookup_update(pre, i as int, voices@[i as int], k);
                }
                assert forall|a: int, b: int|
                    0 <= a < b < voices@.len()
                    implies voices@[a].key@ != voices@[b].key@ by {
                    assert(pre[a].key@ != pre[b].key@);
                }
            }
            return;
        }
        i += 1;
    }
    proof {
        // the scan found no clip under the key, so none exists
        lemma_lookup_key_set(pre, key@);
        lemma_voice_key_contains(pre, key@);
    }
    let v = Voice { key, data };
    let ghost vg = v;
    voices.push(v);
    proof {
        assert forall|k: Seq<char>| #[trigger] voice_lookup(voices@, k) == if k == vg.key@ {
            Some(vg.data@)
        } else {
            voice_lookup(pre, k)
        } by {
            lemma_lookup_push(pre, vg, k);
        }
        assert forall|a: int, b: int|
            0 <= a < b < voices@.len() implies voices@[a].key@ != voices@[b].key@ by {
            if b < voices@.len() - 1 {
                assert(pre[a].key@ != pre[b].key@);
            } else {
                lemma_lookup_key_set(pre, vg.key@);
                lemma_voice_key_contains(pre, vg.key@);
            }
        }
    }
}

/// Whether the phrase list references a key.
pub fn references(phrases: &Vec<Phrase>, key: &SingingVoiceKey) -> (r: bool)
    ensures
        r == referenced_keys(phrases@).contains(key@),
{
    let mut i: usize = 0;
    while i < phrases.len()
        invariant
            i <= phrases.len(),
            forall|j: int| 0 <= j < i ==> phrases@[j].voice@ != key@,
        decreases phrases.len() - i,
    {
        if phrases[i].voice.key_eq(key) {
            proof {
                assert(phrases@.map_values(|p: Phrase| p.voice@)[i as int] == key@);
            }
            return true;
        }
        i += 1;
    }
    proof {
        let m = phrases@.map_values(|p: Phrase| p.voice@);
        assert forall|j: int| 0 <= j < m.len() implies #[trigger] m[j] != key@ by {
            assert(phrases@[j].voice@ != key@);
        }
        assert(!m.contains(key@));
    }
    false
}

/// Borrows the bytes stored under a key, if any.
pub fn find_voice<'a>(voices: &'a Vec<Voice>, key: &SingingVoiceKey) -> (r: Option<&'a Vec<u8>>)
    ensures
        match r {
            Option::Some(d) => voice_lookup(voices@, key@) == Some(d@),
            Option::None => voice_lookup(voices@, key@) is None,
        },
{
    proof {
        assert(voices@.skip(0) =~= voices@);
    }
    let mut i: usize = 0;
    while i < voices.len()
        invariant
            i <= voices.len(),
            voice_lookup(voices@, key@) == voice_lookup(voices@.skip(i as int), key@),
        decreases voices.len() - i,
    {
        proof {
            assert(voices@.skip(i as int)[0] == voices@[i as int]);
            assert(voices@.skip(i as int).drop_first() =~= voices@.skip(i as int + 1));
        }
        if voices[i].key.key_eq(key) {
            return Some(&voices[i].data);
        }
        i += 1;
    }
    None
}

/// Whether the store holds a clip under a key.
pub fn has_key(voices: &Vec<Voice>, key: &SingingVoiceKey) -> (r: bool)
    ensures
        r == voice_key_set(voices@).contains(key@),
{
    let mut i: usize = 0;
    while i < voices.len()
        invariant
            i <= voices.len(),
            forall|j: int| 0 <= j < i ==> voices@[j].key@ != key@,
        decreases voices.len() - i,
    {
        if voices[i].key.key_eq(key) {
            proof {
                assert(voice_key_seq(voices@)[i as int] == key@);
            }
            return true;
        }
        i += 1;
    }
    proof {
        let m = voice_key_seq(voices@);
        assert forall|j: int| 0 <= j < m.len() implies #[trigger] m[j] != key@ by {
            assert(voices@[j].key@ != key@);
        }
        assert(!m.contains(key@));
    }
    false
}

/// Whether a key list already holds a key.
pub fn key_list_contains(keys: &Vec<SingingVoiceKey>, key: &SingingVoiceKey) -> (r: bool)
    ensures
        r == key_views(keys@).contains(key@),
{
    let mut i: usize = 0;
    while i < keys.len()
        invariant
            i <= keys.len(),
            forall|j: int| 0 <= j < i ==> keys@[j]@ != key@,
        decreases keys.len() - i,
    {
        if keys[i].key_eq(key) {
            proof {
                assert(key_views(keys@)[i as int] == key@);
            }
            return true;
        }
        i += 1;
    }
    proof {
        let m = key_views(keys@);
        assert forall|j: int| 0 <= j < m.len() implies #[trigger] m[j] != key@ by {
            assert(keys@[j]@ != key@);
        }
        assert(!m.contains(key@));
    }
    false
}

/// A key is referenced exactly when some phrase names it.
pub proof fn lemma_referenced_contains(ps: Seq<Phrase>, k: Seq<char>)
    ensures
        referenced_keys(ps).contains(k) <==> exists|i: int| 0 <= i < ps.len() && ps[i].voice@ == k,
{
    let m = ps.map_values(|p: Phrase| p.voice@);
    if exists|i: int| 0 <= i < ps.len() && ps[i].voice@ == k {
        let i = choose|i: int| 0 <= i < ps.len() && ps[i].voice@ == k;
        assert(m[i] == k);
        assert(m.contains(k));
    }
    if m.contains(k) {
        let i = choose|i: int| 0 <= i < m.len() && m[i] == k;
        assert(ps[i].voice@ == k);
    }
}

/// A key is in the store's key set exactly when some clip bears it.
pub proof fn lemma_voice_key_contains(vs: Seq<Voice>, k: Seq<char>)
    ensures
        voice_key_set(vs).contains(k) <==> exists|i: int| 0 <= i < vs.len() && vs[i].key@ == k,
{
    let m = voice_key_seq(vs);
    if exists|i: int| 0 <= i < vs.len() && vs[i].key@ == k {
        let i = choose|i: int| 0 <= i < vs.len() && vs[i].key@ == k;
        assert(m[i] == k);
        assert(m.contains(k));
    }
    if m.contains(k) {
        let i = choose|i: int| 0 <= i < m.len() && m[i] == k;
        assert(vs[i].key@ == k);
    }
}

/// The missing-voice list returned by a phrase-list replacement
/// holds exactly the referenced-but-absent keys, each once.
pub proof fn lemma_missing_exact(ps: Seq<Phrase>, present: Set<Seq<char>>)
    ensures
        missing_keys(ps, present).to_set() =~= referenced_keys(ps).difference(present),
        missing_keys(ps, present).no_duplicates(),
    decreases ps.len(),
{
    let m = missing_keys(ps, present);
    if ps.len() == 0 {
        assert forall|k: Seq<char>| !referenced_keys(ps).contains(k) by {
            lemma_referenced_contains(ps, k);
        }
        assert(m.to_set() =~= referenced_keys(ps).difference(present));
    } else {
        lemma_missing_exact(ps.drop_last(), present);
        let k0 = ps.last().voice@;
        let mp = missing_keys(ps.drop_last(), present);
        assert forall|k: Seq<char>|
            #[trigger] m.contains(k) <==> (referenced_keys(ps).contains(k) && !present.contains(k)) by {
            lemma_referenced_contains(ps, k);
            lemma_referenced_contains(ps.drop_last(), k);
            assert(mp.to_set().contains(k) == mp.contains(k));
            assert(mp.to_set() == referenced_keys(ps.drop_last()).difference(present));
            assert(mp.contains(k) <==> (referenced_keys(ps.drop_last()).contains(k)
                && !present.contains(k)));
            // the new reference set grows by at most the last phrase's key
            assert((exists|i: int| 0 <= i < ps.len() && ps[i].voice@ == k) <==> ((exists|i: int|
                0 <= i < ps.drop_last().len() && ps.drop_last()[i].voice@ == k) || k == k0)) by {
                if exists|i: int| 0 <= i < ps.len() && ps[i].voice@ == k {
                    let i = choose|i: int| 0 <= i < ps.len() && ps[i].voice@ == k;
                    if i < ps.len() - 1 {
                        assert(ps.drop_last()[i].voice@ == k);
                    }
                }
                if exists|i: int| 0 <= i < ps.drop_last().len() && ps.drop_last()[i].voice@ == k {
                    let i = choose|i: int|
                        0 <= i < ps.drop_last().len() && ps.drop_last()[i].voice@ == k;
                    assert(ps[i].voice@ == k);
                }
                if k == k0 {
                    assert(ps[ps.len() - 1].voice@ == k);
                }
            }
            if present.contains(k0) || mp.contains(k0) {
                assert(m == mp);
            } else {
                assert(m == mp.push(k0));
                assert(m.contains(k) <==> (mp.contains(k) || k == k0)) by {
                    if mp.contains(k) {
                        let i = choose|i: int| 0 <= i < mp.len() && mp[i] == k;
                        assert(m[i] == k);
                    }
                    if k == k0 {
                        assert(m[m.len() - 1] == k);
                    }
                    if m.contains(k) {
                        let i = choose|i: int| 0 <= i < m.len() && m[i] == k;
                        if i < m.len() - 1 {
                            assert(mp[i] == k);
                        }
                    }
                }
            }
        }
        assert(m.to_set() =~= referenced_keys(ps).difference(present));
        assert(m.no_duplicates()) by {
            if !(present.contains(k0) || mp.contains(k0)) {
                assert(m == mp.push(k0));
                assert forall|i: int, j: int| 0 <= i < j < m.len() implies m[i] != m[j] by {
                    if j < m.len() - 1 {
                        assert(mp[i] != mp[j]);
                    } else {
                        assert(m[i] == mp[i]);
                        if m[i] == k0 {
                            assert(mp.contains(k0));
                        }
                    }
                }
            }
        }
    }
}

/// What a phrase-list replacement keeps and what it evicts: kept are
/// exactly the stored keys the new list still references, evicted
/// exactly the stored keys it no longer references.
pub proof fn lemma_eviction_exact(vs: Seq<Voice>, ps: Seq<Phrase>)
    ensures
        voice_key_set(retained_voices(vs, ps)) =~= voice_key_set(vs).intersect(referenced_keys(ps)),
        voice_key_set(vs).difference(voice_key_set(retained_voices(vs, ps))) =~= evicted_keys(vs, ps),
{
    let pred = |v: Voice| referenced_keys(ps).contains(v.key@);
    let r = retained_voices(vs, ps);
    assert forall|k: Seq<char>|
        #[trigger] voice_key_set(r).contains(k)
        <==> (voice_key_set(vs).contains(k) && referenced_keys(ps).contains(k)) by {
        lemma_voice_key_contains(r, k);
        lemma_voice_key_contains(vs, k);
        if voice_key_set(r).contains(k) {
            let i = choose|i: int| 0 <= i < r.len() && r[i].key@ == k;
            vs.lemma_filter_pred(pred, i);
            lemma_retained_membership(vs, ps, i);
            let idx = choose|idx: int| 0 <= idx < vs.len() && vs[idx] == r[i];
            assert(vs[idx].key@ == k);
        }
        if voice_key_set(vs).contains(k) && referenced_keys(ps).contains(k) {
            let i = choose|i: int| 0 <= i < vs.len() && vs[i].key@ == k;
            vs.lemma_filter_contains(pred, i);
            assert(r.contains(vs[i]));
            let j = choose|j: int| 0 <= j < r.len() && r[j] == vs[i];
            assert(r[j].key@ == k);
        }
    }
    assert(voice_key_set(r) =~= voice_key_set(vs).intersect(referenced_keys(ps)));
}

/// A list whose every clip is referenced is left whole by filtering.
proof fn lemma_retained_all_referenced(vs: Seq<Voice>, ps: Seq<Phrase>)
    requires
        forall|i: int| 0 <= i < vs.len()
            ==> referenced_keys(ps).contains(#[trigger] vs[i].key@),
    ensures
        retained_voices(vs, ps) == vs,
    decreases vs.len(),
{
    reveal(Seq::filter);
    if vs.len() > 0 {
        lemma_retained_all_referenced(vs.drop_last(), ps);
        assert(retained_voices(vs, ps) =~= vs);
    }
}

/// Voice eviction is idempotent: replacing the phrase list twice
/// with the same list removes nothing the second time, and the
/// second call's evicted-key set is empty.
pub proof fn lemma_set_phrases_idempotent(vs: Seq<Voice>, ps: Seq<Phrase>)
    ensures
        retained_voices(retained_voices(vs, ps), ps) == retained_voices(vs, ps),
        evicted_keys(retained_voices(vs, ps), ps) =~= Set::<Seq<char>>::empty(),
{
    let pred = |v: Voice| referenced_keys(ps).contains(v.key@);
    let r = retained_voices(vs, ps);
    assert forall|i: int| 0 <= i < r.len()
        implies referenced_keys(ps).contains(#[trigger] r[i].key@) by {
        vs.lemma_filter_pred(pred, i);
    }
    lemma_retained_all_referenced(r, ps);
    assert forall|k: Seq<char>| !(#[trigger] evicted_keys(r, ps).contains(k)) by {
        if voice_key_set(r).contains(k) {
            lemma_voice_key_contains(r, k);
            let i = choose|i: int| 0 <= i < r.len() && r[i].key@ == k;
            assert(referenced_keys(ps).contains(k));
        }
    }
    assert(evicted_keys(r, ps) =~= Set::<Seq<char>>::empty());
}

/// Every retained clip stands somewhere in the original list.
pub proof fn lemma_retained_membership(vs: Seq<Voice>, ps: Seq<Phrase>, i: int)
    requires
        0 <= i < retained_voices(vs, ps).len(),
    ensures
        exists|idx: int| 0 <= idx < vs.len() && vs[idx] == retained_voices(vs, ps)[i],
    decreases vs.len(),
{
    reveal(Seq::filter);
    let pred = |v: Voice| referenced_keys(ps).contains(v.key@);
    let r = retained_voices(vs, ps);
    let rp = retained_voices(vs.drop_last(), ps);
    if pred(vs.last()) && i == r.len() - 1 {
        assert(vs[vs.len() - 1] == r[i]);
    } else {
        assert(r[i] == rp[i]);
        lemma_retained_membership(vs.drop_last(), ps, i);
        let idx = choose|idx: int|
            0 <= idx < vs.drop_last().len() && vs.drop_last()[idx] == rp[i];
        assert(vs[idx] == r[i]);
    }
}

/// Filtering the clips keeps their keys unique.
pub proof fn lemma_retained_unique(vs: Seq<Voice>, ps: Seq<Phrase>)
    requires
        unique_keys(vs),
    ensures
        unique_keys(retained_voices(vs, ps)),
    decreases vs.len(),
{
    reveal(Seq::filter);
    if vs.len() > 0 {
        lemma_retained_unique(vs.drop_last(), ps);
        let pred = |v: Voice| referenced_keys(ps).contains(v.key@);
        let r = retained_voices(vs, ps);
        let rp = retained_voices(vs.drop_last(), ps);
        assert forall|i: int, j: int|
            0 <= i < j < r.len() implies r[i].key@ != r[j].key@ by {
            if pred(vs.last()) {
                assert(r == rp.push(vs.last()));
                if j < r.len() - 1 {
                    assert(r[i] == rp[i] && r[j] == rp[j]);
                } else {
                    // r[j] is the last original clip; r[i] stood earlier in vs
                    assert(r[i] == rp[i]);
                    lemma_retained_membership(vs.drop_last(), ps, i);
                    let idx = choose|idx: int|
                        0 <= idx < vs.drop_last().len() && vs.drop_last()[idx] == rp[i];
                    assert(vs[idx] == rp[i]);
                    assert(vs[idx].key@ != vs[vs.len() - 1].key@);
                }
            } else {
                assert(r == rp);
            }
        }
    }
}

} // verus!
