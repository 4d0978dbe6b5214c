//! Active voice sessions, the decisions of enqueue and skip, and the
//! bookkeeping that deletes each temporary audio file exactly once.

use vstd::prelude::*;
use vstd::string::StringExecFns;
use crate::engine::EngineRequest;
use crate::error::RelayError;

verus! {

/// The speaker that utterances are synthesized with.
pub const DEFAULT_SPEAKER: u8 = 8;

/// A live voice session: the voice channel it plays in and the text channel
/// whose messages it reads.
#[derive(Clone, Copy, Debug, PartialEq, Eq, Structural)]
pub struct Binding {
    pub session_key: u64,
    pub voice_channel: u64,
    pub text_channel: u64,
}

/// A temporary audio file waiting for, or in, playback.
pub struct Artifact {
    pub path: String,
    pub session_key: u64,
}

/// The sessions and the audio files not yet deleted.
pub struct Playback {
    sessions: Vec<Binding>,
    artifacts: Vec<Artifact>,
}

/// The sessions by key.
pub open spec fn sessions_map(bs: Seq<Binding>) -> Map<u64, Binding> {
    Map::new(
        |k: u64| exists|i: int| 0 <= i < bs.len() && bs[i].session_key == k,
        |k: u64| bs[choose|i: int| 0 <= i < bs.len() && bs[i].session_key == k],
    )
}

/// Whether `channel` is the voice or the text channel of session `key`.
pub open spec fn binds(sessions: Map<u64, Binding>, key: u64, channel: u64) -> bool {
    sessions.contains_key(key) && (sessions[key].voice_channel == channel
        || sessions[key].text_channel == channel)
}


proof fn lemma_sessions_remove(bs: Seq<Binding>, i: int)
    requires
        0 <= i < bs.len(),
        forall|a: int, b: int| 0 <= a < b < bs.len() ==> (#[trigger] bs[a]).session_key != (#[trigger] bs[b]).session_key,
    ensures
        sessions_map(bs.remove(i)) == sessions_map(bs).remove(bs[i].session_key),
        forall|a: int, b: int|
            0 <= a < b < bs.remove(i).len() ==> (#[trigger] bs.remove(i)[a]).session_key
                != (#[trigger] bs.remove(i)[b]).session_key,
{
    let r = bs.remove(i);
    let m = sessions_map(bs).remove(bs[i].session_key);
    assert forall|a: int, b: int| 0 <= a < b < r.len() implies (#[trigger] r[a]).session_key != (#[trigger] r[b]).session_key by {
        let a1 = if a < i { a } else { a + 1 };
        let b1 = if b < i { b } else { b + 1 };
        assert(r[a] == bs[a1] && r[b] == bs[b1]);
    }
    assert forall|k: u64| #[trigger] sessions_map(r).contains_key(k) <==> m.contains_key(k) by {
        if sessions_map(r).contains_key(k) {
            let c = choose|q: int| 0 <= q < r.len() && r[q].session_key == k;
            let c1 = if c < i { c } else { c + 1 };
            assert(bs[c1] == r[c]);
            if k == bs[i].session_key {
                if c1 < i {
                    assert(bs[c1].session_key != bs[i].session_key);
                } else {
                    assert(bs[i].session_key != bs[c1].session_key);
                }
            }
        }
        if m.contains_key(k) {
            let c = choose|q: int| 0 <= q < bs.len() && bs[q].session_key == k;
            assert(c != i);
            let c1 = if c < i { c } else { c - 1 };
            assert(r[c1] == bs[c]);
        }
    }
    assert forall|k: u64| #[trigger] sessions_map(r).contains_key(k) implies sessions_map(r)[k] == m[k] by {
        let c = choose|q: int| 0 <= q < r.len() && r[q].session_key == k;
        let d = choose|q: int| 0 <= q < bs.len() && bs[q].session_key == k;
        let c1 = if c < i { c } else { c + 1 };
        assert(bs[c1] == r[c]);
        if c1 != d {
            if c1 < d {
                assert(bs[c1].session_key != bs[d].session_key);
            } else {
                assert(bs[d].session_key != bs[c1].session_key);
            }
        }
    }
    assert(sessions_map(r) =~= m);
}

/// The paths of the files of session `key`, in order.
pub open spec fn queued_paths(arts: Seq<(Seq<char>, u64)>, key: u64) -> Seq<Seq<char>>
    decreases arts.len(),
{
    if arts.len() == 0 {
        Seq::empty()
    } else {
        let rest = queued_paths(arts.drop_last(), key);
        if arts.last().1 == key {
            rest.push(arts.last().0)
        } else {
            rest
        }
    }
}

/// Index of the first file with path `path`, or `arts.len()`.
pub open spec fn artifact_index(arts: Seq<(Seq<char>, u64)>, path: Seq<char>, k: int) -> int
    decreases arts.len() - k,
{
    if k < 0 || k >= arts.len() {
        arts.len() as int
    } else if arts[k].0 == path {
        k
    } else {
        artifact_index(arts, path, k + 1)
    }
}

proof fn lemma_artifact_index(arts: Seq<(Seq<char>, u64)>, path: Seq<char>, k: int)
    requires
        0 <= k <= arts.len(),
    ensures
        k <= artifact_index(arts, path, k) <= arts.len(),
        artifact_index(arts, path, k) < arts.len() ==> arts[artifact_index(arts, path, k)].0 == path,
        forall|j: int| k <= j < artifact_index(arts, path, k) ==> (#[trigger] arts[j]).0 != path,
    decreases arts.len() - k,
{
    if k < arts.len() && arts[k].0 != path {
        lemma_artifact_index(arts, path, k + 1);
    }
}

/// Releasing `path`: the files left, and whether this release is the one
/// that deletes the file.
pub open spec fn release_result(arts: Seq<(Seq<char>, u64)>, path: Seq<char>) -> (Seq<(Seq<char>, u64)>, bool) {
    let k = artifact_index(arts, path, 0);
    if k < arts.len() {
        (arts.remove(k), true)
    } else {
        (arts, false)
    }
}

/// How many of `n` successive releases of `path` delete the file.
pub open spec fn deletions(arts: Seq<(Seq<char>, u64)>, path: Seq<char>, n: nat) -> nat
    decreases n,
{
    if n == 0 {
        0
    } else {
        let (rest, deleted) = release_result(arts, path);
        (if deleted { 1nat } else { 0nat }) + deletions(rest, path, (n - 1) as nat)
    }
}

/// Whether no two files share a path.
pub open spec fn unique_paths(arts: Seq<(Seq<char>, u64)>) -> bool {
    forall|i: int, j: int| 0 <= i < j < arts.len() ==> (#[trigger] arts[i]).0 != (#[trigger] arts[j]).0
}

proof fn lemma_no_deletions(arts: Seq<(Seq<char>, u64)>, path: Seq<char>, n: nat)
    requires
        artifact_index(arts, path, 0) == arts.len(),
    ensures
        deletions(arts, path, n) == 0,
    decreases n,
{
    if n > 0 {
        lemma_no_deletions(arts, path, (n - 1) as nat);
    }
}

/// Every queued file is deleted by the first of its end or error events and
/// by none of the events after it, however many arrive.
pub proof fn lemma_deleted_exactly_once(arts: Seq<(Seq<char>, u64)>, path: Seq<char>, n: nat)
    requires
        unique_paths(arts),
        exists|i: int| 0 <= i < arts.len() && arts[i].0 == path,
        n >= 1,
    ensures
        deletions(arts, path, n) == 1,
{
    lemma_artifact_index(arts, path, 0);
    let k = artifact_index(arts, path, 0);
    let w = choose|i: int| 0 <= i < arts.len() && arts[i].0 == path;
    assert(k <= w);
    let rest = arts.remove(k);
    lemma_artifact_index(rest, path, 0);
    let k2 = artifact_index(rest, path, 0);
    if k2 < rest.len() {
        let j = if k2 < k { k2 } else { k2 + 1 };
        assert(rest[k2] == arts[j]);
        if j < k {
            assert(arts[j].0 != arts[k].0);
        } else {
            assert(arts[k].0 != arts[j].0);
        }
    }
    lemma_no_deletions(rest, path, (n - 1) as nat);
}

/// The path of the temporary audio file named `id`.
pub open spec fn artifact_path_of(id: Seq<char>) -> Seq<char> {
    "temp/"@ + id + ".wav"@
}

/// Relies on `uuid::Uuid::new_v4` and its `Display`, which writes the
/// hyphenated form of 36 characters; the value is random.
#[verifier::external_body]
fn new_artifact_id() -> (r: String)
    ensures
        r@.len() == 36,
{
    uuid::Uuid::new_v4().to_string()
}

/// The path of the temporary audio file named `id`.
pub fn artifact_path(id: &str) -> (r: String)
    ensures
        r@ == artifact_path_of(id@),
{
    String::from_str("temp/").concat(id).concat(".wav")
}

/// A path for a new temporary audio file, named by a random identifier.
pub fn fresh_artifact_path() -> (r: String)
    ensures
        exists|id: Seq<char>| id.len() == 36 && r@ == artifact_path_of(id),
{
    let id = new_artifact_id();
    artifact_path(id.as_str())
}

impl Playback {
    /// The sessions by key.
    pub closed spec fn sessions(&self) -> Map<u64, Binding> {
        sessions_map(self.sessions@)
    }

    /// The audio files not yet deleted, in the order they were queued, with
    /// the session each belongs to.
    pub closed spec fn artifacts(&self) -> Seq<(Seq<char>, u64)> {
        Seq::new(self.artifacts@.len(), |i: int| (self.artifacts@[i].path@, self.artifacts@[i].session_key))
    }

    /// At most one session per key; no file recorded twice.
    pub closed spec fn wf(&self) -> bool {
        &&& forall|i: int, j: int|
            0 <= i < j < self.sessions@.len() ==> (#[trigger] self.sessions@[i]).session_key
                != (#[trigger] self.sessions@[j]).session_key
        &&& forall|i: int, j: int|
            0 <= i < j < self.artifacts@.len() ==> (#[trigger] self.artifacts@[i]).path@
                != (#[trigger] self.artifacts@[j]).path@
    }

    pub fn new() -> (r: Playback)
        ensures
            r.wf(),
            r.sessions() == Map::<u64, Binding>::empty(),
            r.artifacts() == Seq::<(Seq<char>, u64)>::empty(),
    {
        let r = Playback { sessions: Vec::new(), artifacts: Vec::new() };
        assert(r.sessions() =~= Map::<u64, Binding>::empty());
        assert(r.artifacts() =~= Seq::<(Seq<char>, u64)>::empty());
        r
    }

    fn find_session(&self, key: u64) -> (r: Option<usize>)
        requires
            self.wf(),
        ensures
            match r {
                Some(i) => i < self.sessions@.len() && self.sessions@[i as int].session_key == key
                    && self.sessions().contains_key(key) && self.sessions()[key] == self.sessions@[i as int],
                None => !self.sessions().contains_key(key),
            },
    {
        let mut i: usize = 0;
        while i < self.sessions.len()
            invariant
                self.wf(),
                i <= self.sessions@.len(),
                forall|j: int| 0 <= j < i ==> (#[trigger] self.sessions@[j]).session_key != key,
            decreases self.sessions.len() - i,
        {
            if self.sessions[i].session_key == key {
                proof {
                    let c = choose|q: int| 0 <= q < self.sessions@.len() && self.sessions@[q].session_key == key;
                    if c != i {
                        if c < i {
                            assert(self.sessions@[c].session_key != self.sessions@[i as int].session_key);
                        } else {
                            assert(self.sessions@[i as int].session_key != self.sessions@[c].session_key);
                        }
                    }
                }
                return Some(i);
            }
            i += 1;
        }
        None
    }

    /// The session with key `key`, if one is active.
    pub fn session(&self, key: u64) -> (r: Option<Binding>)
        requires
            self.wf(),
        ensures
            match r {
                Some(b) => self.sessions().contains_key(key) && self.sessions()[key] == b,
                None => !self.sessions().contains_key(key),
            },
    {
        match self.find_session(key) {
            Some(i) => Some(self.sessions[i]),
            None => None,
        }
    }

    /// Creates the session `key`, replacing any earlier one with that key.
    pub fn bind(&mut self, key: u64, voice_channel: u64, text_channel: u64)
        requires
            old(self).wf(),
        ensures
            final(self).wf(),
            final(self).sessions() == old(self).sessions().insert(
                key,
                Binding { session_key: key, voice_channel, text_channel },
            ),
            final(self).artifacts() == old(self).artifacts(),
    {
        let b = Binding { session_key: key, voice_channel, text_channel };
        let ghost old_sessions = self.sessions@;
        match self.find_session(key) {
            Some(i) => {
                self.sessions.set(i, b);
                proof {
                    assert forall|i1: int, j1: int| 0 <= i1 < j1 < self.sessions@.len() implies
                        (#[trigger] self.sessions@[i1]).session_key != (#[trigger] self.sessions@[j1]).session_key by {
                        assert(old_sessions[i1].session_key != old_sessions[j1].session_key);
                    }
                }
            },
            None => {
                self.sessions.push(b);
            },
        }
        proof {
            let m = old(self).sessions().insert(key, b);
            assert forall|k: u64| #[trigger] self.sessions().contains_key(k) <==> m.contains_key(k) by {
                if m.contains_key(k) && k != key {
                    let c = choose|q: int| 0 <= q < old_sessions.len() && old_sessions[q].session_key == k;
                    assert(self.sessions@[c].session_key == k);
                }
                if k == key {
                    let q = if self.sessions@.len() > old_sessions.len() { old_sessions.len() as int } else {
                        choose|q: int| 0 <= q < old_sessions.len() && old_sessions[q].session_key == key
                    };
                    assert(self.sessions@[q].session_key == key);
                }
                if self.sessions().contains_key(k) && k != key {
                    let c = choose|q: int| 0 <= q < self.sessions@.len() && self.sessions@[q].session_key == k;
                    assert(old_sessions[c].session_key == k);
                }
            }
            assert forall|k: u64| #[trigger] self.sessions().contains_key(k) implies self.sessions()[k] == m[k] by {
                let c = choose|q: int| 0 <= q < self.sessions@.len() && self.sessions@[q].session_key == k;
                if k != key {
                    let d = choose|q: int| 0 <= q < old_sessions.len() && old_sessions[q].session_key == k;
                    assert(old_sessions[c].session_key == k);
                    if c != d {
                        if c < d {
                            assert(old_sessions[c].session_key != old_sessions[d].session_key);
                        } else {
                            assert(old_sessions[d].session_key != old_sessions[c].session_key);
                        }
                    }
                }
            }
            assert(self.sessions() =~= m);
            assert(self.artifacts() =~= old(self).artifacts());
        }
    }

    /// Ends session `key` where `channel` is its voice or its text channel;
    /// says whether it did.
    pub fn unbind(&mut self, key: u64, channel: u64) -> (r: bool)
        requires
            old(self).wf(),
        ensures
            final(self).wf(),
            r == binds(old(self).sessions(), key, channel),
            final(self).sessions() == (if r { old(self).sessions().remove(key) } else { old(self).sessions() }),
            final(self).artifacts() == old(self).artifacts(),
    {
        match self.find_session(key) {
            Some(i) => {
                let b = self.sessions[i];
                if b.voice_channel == channel || b.text_channel == channel {
                    proof {
                        lemma_sessions_remove(self.sessions@, i as int);
                    }
                    self.sessions.remove(i);
                    assert(self.artifacts() =~= old(self).artifacts());
                    true
                } else {
                    false
                }
            },
            None => false,
        }
    }

    /// Whether `channel` is the voice or the text channel of session `key`.
    pub fn is_bound(&self, key: u64, channel: u64) -> (r: bool)
        requires
            self.wf(),
        ensures
            r == binds(self.sessions(), key, channel),
    {
        match self.find_session(key) {
            Some(i) => self.sessions[i].voice_channel == channel || self.sessions[i].text_channel == channel,
            None => false,
        }
    }

    /// Ends every session.
    pub fn purge_all(&mut self)
        requires
            old(self).wf(),
        ensures
            final(self).wf(),
            final(self).sessions() == Map::<u64, Binding>::empty(),
            final(self).artifacts() == old(self).artifacts(),
    {
        self.sessions = Vec::new();
        assert(self.sessions() =~= Map::<u64, Binding>::empty());
    }

    /// The first step of speaking `text` in session `key`: the synthesis plan
    /// to ask for, or `NoActiveSession`.
    pub fn start_enqueue(&self, key: u64, text: String) -> (r: Result<EngineRequest, RelayError>)
        requires
            self.wf(),
        ensures
            self.sessions().contains_key(key) ==> r == Ok::<EngineRequest, RelayError>(
                EngineRequest::AudioQuery { text, speaker: DEFAULT_SPEAKER },
            ),
            !self.sessions().contains_key(key) ==> r == Err::<EngineRequest, RelayError>(RelayError::NoActiveSession),
    {
        match self.find_session(key) {
            Some(_) => Ok(EngineRequest::AudioQuery { text, speaker: DEFAULT_SPEAKER }),
            None => Err(RelayError::NoActiveSession),
        }
    }

    /// Whether the current utterance of session `key` may be skipped.
    pub fn skip(&self, key: u64) -> (r: Result<(), RelayError>)
        requires
            self.wf(),
        ensures
            r is Ok <==> self.sessions().contains_key(key),
            r is Err ==> r == Err::<(), RelayError>(RelayError::NoActiveSession),
    {
        match self.find_session(key) {
            Some(_) => Ok(()),
            None => Err(RelayError::NoActiveSession),
        }
    }

    fn has_artifact(&self, path: &String) -> (r: Option<usize>)
        ensures
            match r {
                Some(i) => i == artifact_index(self.artifacts(), path@, 0) && i < self.artifacts@.len(),
                None => artifact_index(self.artifacts(), path@, 0) == self.artifacts().len(),
            },
    {
        let ghost arts = self.artifacts();
        let mut i: usize = 0;
        while i < self.artifacts.len()
            invariant
                i <= self.artifacts@.len(),
                arts == self.artifacts(),
                artifact_index(arts, path@, 0) == artifact_index(arts, path@, i as int),
            decreases self.artifacts.len() - i,
        {
            assert(arts[i as int].0 == self.artifacts@[i as int].path@);
            if self.artifacts[i].path.eq(path) {
                return Some(i);
            }
            i += 1;
        }
        None
    }

    /// Records the file `path`, queued for playback in session `key`. Fails
    /// with `NoActiveSession` where the session has ended, and with
    /// `ArtifactIoFailure` where the path is already recorded.
    pub fn track(&mut self, key: u64, path: String) -> (r: Result<(), RelayError>)
        requires
            old(self).wf(),
        ensures
            final(self).wf(),
            final(self).sessions() == old(self).sessions(),
            !old(self).sessions().contains_key(key) ==> r == Err::<(), RelayError>(RelayError::NoActiveSession),
            old(self).sessions().contains_key(key) && artifact_index(old(self).artifacts(), path@, 0)
                < old(self).artifacts().len() ==> r == Err::<(), RelayError>(RelayError::ArtifactIoFailure),
            r is Ok <==> old(self).sessions().contains_key(key) && artifact_index(old(self).artifacts(), path@, 0)
                == old(self).artifacts().len(),
            r is Ok ==> final(self).artifacts() == old(self).artifacts().push((path@, key)),
            r is Err ==> final(self).artifacts() == old(self).artifacts(),
    {
        if self.find_session(key).is_none() {
            return Err(RelayError::NoActiveSession);
        }
        if self.has_artifact(&path).is_some() {
            return Err(RelayError::ArtifactIoFailure);
        }
        proof {
            lemma_artifact_index(self.artifacts(), path@, 0);
        }
        let ghost before = self.artifacts@;
        self.artifacts.push(Artifact { path, session_key: key });
        proof {
            assert forall|i: int, j: int| 0 <= i < j < self.artifacts@.len() implies
                (#[trigger] self.artifacts@[i]).path@ != (#[trigger] self.artifacts@[j]).path@ by {
                if j == before.len() {
                    assert(old(self).artifacts()[i].0 == before[i].path@);
                }
            }
            assert(self.artifacts() =~= old(self).artifacts().push((path@, key)));
        }
        Ok(())
    }

    /// The end or error event of the file `path`: says whether the file is to
    /// be deleted now, which is so for the first event only.
    pub fn release(&mut self, path: &String) -> (r: bool)
        requires
            old(self).wf(),
        ensures
            final(self).wf(),
            final(self).sessions() == old(self).sessions(),
            (final(self).artifacts(), r) == release_result(old(self).artifacts(), path@),
    {
        match self.has_artifact(path) {
            Some(i) => {
                let ghost before = self.artifacts@;
                self.artifacts.remove(i);
                proof {
                    assert forall|a: int, b: int| 0 <= a < b < self.artifacts@.len() implies
                        (#[trigger] self.artifacts@[a]).path@ != (#[trigger] self.artifacts@[b]).path@ by {
                        let a1 = if a < i { a } else { a + 1 };
                        let b1 = if b < i { b } else { b + 1 };
                        assert(self.artifacts@[a] == before[a1] && self.artifacts@[b] == before[b1]);
                    }
                    assert(self.artifacts() =~= old(self).artifacts().remove(i as int));
                }
                true
            },
            None => false,
        }
    }

    /// The files of session `key` not yet deleted, in the order queued.
    pub fn queued(&self, key: u64) -> (r: Vec<String>)
        ensures
            Seq::new(r@.len(), |i: int| r@[i]@) == queued_paths(self.artifacts(), key),
    {
        let ghost arts = self.artifacts();
        let mut r: Vec<String> = Vec::new();
        let mut i: usize = 0;
        while i < self.artifacts.len()
            invariant
                i <= self.artifacts@.len(),
                arts == self.artifacts(),
                Seq::new(r@.len(), |q: int| r@[q]@) == queued_paths(arts.subrange(0, i as int), key),
            decreases self.artifacts.len() - i,
        {
            let ghost prev = r@;
            assert(arts.subrange(0, i + 1).drop_last() =~= arts.subrange(0, i as int));
            if self.artifacts[i].session_key == key {
                r.push(self.artifacts[i].path.clone());
                assert(Seq::new(r@.len(), |q: int| r@[q]@) =~= Seq::new(prev.len(), |q: int| prev[q]@).push(arts[i as int].0));
            }
            i += 1;
        }
        assert(arts.subrange(0, arts.len() as int) =~= arts);
        r
    }

    /// Every file is deleted exactly once, however many end or error events
    /// arrive for it.
    pub proof fn lemma_artifact_deleted_once(&self, path: Seq<char>, n: nat)
        requires
            self.wf(),
            exists|i: int| 0 <= i < self.artifacts().len() && self.artifacts()[i].0 == path,
            n >= 1,
        ensures
            deletions(self.artifacts(), path, n) == 1,
    {
        assert forall|i: int, j: int| 0 <= i < j < self.artifacts().len() implies
            (#[trigger] self.artifacts()[i]).0 != (#[trigger] self.artifacts()[j]).0 by {
            assert(self.artifacts@[i].path@ != self.artifacts@[j].path@);
        }
        lemma_deleted_exactly_once(self.artifacts(), path, n);
    }
}

} // verus!
