//! The pronunciation dictionary kept by the speech engine: its entries, the
//! lookup of a remote id by surface form, and the requests that each
//! dictionary operation makes.

use vstd::prelude::*;
use vstd::string::StringExecFns;
use crate::engine::EngineRequest;
use crate::error::RelayError;

verus! {

/// Part of speech of a dictionary entry.
#[derive(Clone, Copy, Debug, PartialEq, Eq, Structural)]
pub enum WordType {
    ProperNoun,
    CommonNoun,
    Verb,
    Adjective,
    Suffix,
}

/// The engine's name for a word type.
pub open spec fn word_type_name(word_type: WordType) -> Seq<char> {
    match word_type {
        WordType::ProperNoun => "PROPER_NOUN"@,
        WordType::CommonNoun => "COMMON_NOUN"@,
        WordType::Verb => "VERB"@,
        WordType::Adjective => "ADJECTIVE"@,
        WordType::Suffix => "SUFFIX"@,
    }
}

/// The engine's name for a word type.
pub fn set_word_type(word_type: WordType) -> (r: String)
    ensures
        r@ == word_type_name(word_type),
{
    match word_type {
        WordType::ProperNoun => String::from_str("PROPER_NOUN"),
        WordType::CommonNoun => String::from_str("COMMON_NOUN"),
        WordType::Verb => String::from_str("VERB"),
        WordType::Adjective => String::from_str("ADJECTIVE"),
        WordType::Suffix => String::from_str("SUFFIX"),
    }
}

/// A pronunciation override as a user enters it.
pub struct DictionaryEntry {
    pub surface: String,
    pub pronunciation: String,
    /// 1-based position of the accent.
    pub accent_type: u8,
    /// `None` stands for a proper noun.
    pub word_type: Option<WordType>,
}

/// The word type an entry is sent with.
pub open spec fn effective_word_type(word_type: Option<WordType>) -> WordType {
    match word_type {
        Some(w) => w,
        None => WordType::ProperNoun,
    }
}

/// One member of the engine's dictionary document: the remote id it is keyed
/// by, and the fields read from its value.
pub struct DictWord {
    pub id: String,
    /// Whether the value is a JSON object.
    pub is_object: bool,
    /// The `surface` field, where it is a string.
    pub surface: Option<String>,
    /// The `pronunciation` field, where it is a string.
    pub pronunciation: Option<String>,
    /// The `accent_type` field, where it is an unsigned integer.
    pub accent_type: Option<u64>,
}

pub open spec fn opt_view(s: Option<String>) -> Option<Seq<char>> {
    match s {
        Some(x) => Some(x@),
        None => None,
    }
}

/// A dictionary member as plain values.
pub struct WordView {
    pub id: Seq<char>,
    pub is_object: bool,
    pub surface: Option<Seq<char>>,
    pub pronunciation: Option<Seq<char>>,
    pub accent_type: Option<u64>,
}

impl View for DictWord {
    type V = WordView;

    open spec fn view(&self) -> WordView {
        WordView {
            id: self.id@,
            is_object: self.is_object,
            surface: opt_view(self.surface),
            pronunciation: opt_view(self.pronunciation),
            accent_type: self.accent_type,
        }
    }
}

pub open spec fn words_view(ws: Seq<DictWord>) -> Seq<WordView> {
    Seq::new(ws.len(), |i: int| ws[i]@)
}

/// `serde_json::Error`, the error of `serde_json::from_str`, carried opaquely.
#[verifier::external_type_specification]
#[verifier::external_body]
pub struct ExJsonError(serde_json::Error);

/// What a dictionary document holds: `None` where it is not JSON,
/// `Some(None)` where it is JSON but not an object, else the object's members
/// in the order of serde_json's map.
pub uninterp spec fn dictionary_document(doc: Seq<char>) -> Option<Option<Seq<WordView>>>;

/// Relies on `serde_json::from_str` to parse the document; the members of a
/// top-level object are read with `Value::get`, `Value::as_str` and
/// `Value::as_u64`. The result depends on the text alone.
#[verifier::external_body]
fn parse_dictionary(doc: &str) -> (r: Result<Option<Vec<DictWord>>, serde_json::Error>)
    ensures
        match r {
            Ok(Some(ws)) => dictionary_document(doc@) == Some(Some(words_view(ws@))),
            Ok(None) => dictionary_document(doc@) == Some(None::<Seq<WordView>>),
            Err(_) => dictionary_document(doc@) is None,
        },
{
    let value: serde_json::Value = serde_json::from_str(doc)?;
    Ok(value.as_object().map(|m| m.iter().map(|(k, w)| DictWord {
        id: k.clone(),
        is_object: w.is_object(),
        surface: w.get("surface").and_then(|s| s.as_str()).map(String::from),
        pronunciation: w.get("pronunciation").and_then(|s| s.as_str()).map(String::from),
        accent_type: w.get("accent_type").and_then(|a| a.as_u64()),
    }).collect()))
}

/// Index of the first member from `k` on whose surface is `surface`, or `ws.len()`.
pub open spec fn first_with_surface(ws: Seq<WordView>, surface: Seq<char>, k: int) -> int
    decreases ws.len() - k,
{
    if k < 0 || k >= ws.len() {
        ws.len() as int
    } else if ws[k].surface == Some(surface) {
        k
    } else {
        first_with_surface(ws, surface, k + 1)
    }
}

/// The remote id of the first member whose surface is `surface`.
pub open spec fn find_id(ws: Seq<WordView>, surface: Seq<char>) -> Option<Seq<char>> {
    let k = first_with_surface(ws, surface, 0);
    if k < ws.len() {
        Some(ws[k].id)
    } else {
        None
    }
}

/// Whether some member has surface `surface`.
pub open spec fn has_surface(ws: Seq<WordView>, surface: Seq<char>) -> bool {
    exists|k: int| 0 <= k < ws.len() && ws[k].surface == Some(surface)
}

pub proof fn lemma_first_with_surface(ws: Seq<WordView>, surface: Seq<char>, k: int)
    requires
        0 <= k <= ws.len(),
    ensures
        k <= first_with_surface(ws, surface, k) <= ws.len(),
        first_with_surface(ws, surface, k) < ws.len() ==> ws[first_with_surface(ws, surface, k)].surface
            == Some(surface),
        forall|j: int| k <= j < first_with_surface(ws, surface, k) ==> (#[trigger] ws[j]).surface != Some(surface),
    decreases ws.len() - k,
{
    if k < ws.len() && ws[k].surface != Some(surface) {
        lemma_first_with_surface(ws, surface, k + 1);
    }
}

/// Looks up the remote id of the entry with surface form `surface`, scanning
/// the members in order.
pub fn find_uuid_by_surface(words: &Vec<DictWord>, surface: &str) -> (r: Result<String, RelayError>)
    ensures
        match find_id(words_view(words@), surface@) {
            Some(id) => r matches Ok(x) && x@ == id,
            None => r == Err::<String, RelayError>(RelayError::NotFound),
        },
{
    let ghost wv = words_view(words@);
    let target = String::from_str(surface);
    let mut i: usize = 0;
    while i < words.len()
        invariant
            i <= words.len(),
            wv == words_view(words@),
            target@ == surface@,
            forall|j: int| 0 <= j < i ==> (#[trigger] wv[j]).surface != Some(surface@),
        decreases words.len() - i,
    {
        assert(wv[i as int] == words@[i as int]@);
        match &words[i].surface {
            Some(s) => {
                if s.eq(&target) {
                    proof {
                        lemma_first_with_surface(wv, surface@, 0);
                        assert(first_with_surface(wv, surface@, 0) == i);
                    }
                    return Ok(words[i].id.clone());
                }
            },
            None => {},
        }
        i += 1;
    }
    proof {
        lemma_first_with_surface(wv, surface@, 0);
    }
    Err(RelayError::NotFound)
}

/// The members of a dictionary document, or `MalformedDocument` where it is
/// not JSON. A JSON value other than an object has no members.
pub fn dictionary_words(doc: &str) -> (r: Result<Vec<DictWord>, RelayError>)
    ensures
        match dictionary_document(doc@) {
            None => r == Err::<Vec<DictWord>, RelayError>(RelayError::MalformedDocument),
            Some(None) => r matches Ok(ws) && ws@.len() == 0,
            Some(Some(wv)) => r matches Ok(ws) && words_view(ws@) == wv,
        },
{
    match parse_dictionary(doc) {
        Ok(Some(ws)) => Ok(ws),
        Ok(None) => Ok(Vec::new()),
        Err(_) => Err(RelayError::MalformedDocument),
    }
}


/// `findId` on the outcome of fetching the dictionary document: the fetch's
/// own error, `MalformedDocument` for a document that is not JSON, else the
/// id of the first member with surface `surface`, or `NotFound`.
pub open spec fn lookup(fetched: Result<Seq<char>, RelayError>, surface: Seq<char>) -> Result<Seq<char>, RelayError> {
    match fetched {
        Err(e) => Err(e),
        Ok(doc) => match dictionary_document(doc) {
            None => Err(RelayError::MalformedDocument),
            Some(None) => Err(RelayError::NotFound),
            Some(Some(ws)) => match find_id(ws, surface) {
                Some(id) => Ok(id),
                None => Err(RelayError::NotFound),
            },
        },
    }
}

pub open spec fn fetched_view(fetched: Result<String, RelayError>) -> Result<Seq<char>, RelayError> {
    match fetched {
        Ok(doc) => Ok(doc@),
        Err(e) => Err(e),
    }
}

/// Looks up the remote id for `surface` in the result of fetching the
/// dictionary document.
pub fn find_in_fetched(fetched: &Result<String, RelayError>, surface: &str) -> (r: Result<String, RelayError>)
    ensures
        fetched_view(r) == lookup(fetched_view(*fetched), surface@),
{
    match fetched {
        Err(e) => Err(*e),
        Ok(doc) => match parse_dictionary(doc.as_str()) {
            Err(_) => Err(RelayError::MalformedDocument),
            Ok(None) => Err(RelayError::NotFound),
            Ok(Some(ws)) => find_uuid_by_surface(&ws, surface),
        },
    }
}

/// `add`: refused with `AlreadyExists` where the surface was found, else the
/// entry is added.
pub fn plan_add(found: &Result<String, RelayError>, entry: DictionaryEntry) -> (r: Result<EngineRequest, RelayError>)
    ensures
        found is Ok ==> r == Err::<EngineRequest, RelayError>(RelayError::AlreadyExists),
        found is Err ==> r == Ok::<EngineRequest, RelayError>(EngineRequest::AddWord { entry }),
{
    match found {
        Ok(_) => Err(RelayError::AlreadyExists),
        Err(_) => Ok(EngineRequest::AddWord { entry }),
    }
}

/// `edit`: refused with `NotFound` where the surface was not found, else the
/// entry is rewritten.
pub fn plan_edit(found: &Result<String, RelayError>, entry: DictionaryEntry) -> (r: Result<EngineRequest, RelayError>)
    ensures
        found is Err ==> r == Err::<EngineRequest, RelayError>(RelayError::NotFound),
        found is Ok ==> r == Ok::<EngineRequest, RelayError>(EngineRequest::RewriteWord { entry }),
{
    match found {
        Ok(_) => Ok(EngineRequest::RewriteWord { entry }),
        Err(_) => Err(RelayError::NotFound),
    }
}

/// `remove`: refused with `NotFound` where the surface was not found, else
/// the entry with the id found is deleted.
pub fn plan_remove(found: Result<String, RelayError>) -> (r: Result<EngineRequest, RelayError>)
    ensures
        found is Err ==> r == Err::<EngineRequest, RelayError>(RelayError::NotFound),
        found matches Ok(id) ==> r == Ok::<EngineRequest, RelayError>(EngineRequest::DeleteWord { id }),
{
    match found {
        Ok(id) => Ok(EngineRequest::DeleteWord { id }),
        Err(_) => Err(RelayError::NotFound),
    }
}

/// Whether `req` deletes the member with remote id `id`.
pub open spec fn deletes(req: EngineRequest, id: Seq<char>) -> bool {
    match req {
        EngineRequest::DeleteWord { id: x } => x@ == id,
        _ => false,
    }
}

/// `reset`: one deletion per member, in the document's order.
pub fn plan_reset(words: &Vec<DictWord>) -> (r: Vec<EngineRequest>)
    ensures
        r@.len() == words@.len(),
        forall|i: int| 0 <= i < r@.len() ==> deletes(#[trigger] r@[i], words@[i].id@),
{
    let mut r: Vec<EngineRequest> = Vec::new();
    let mut i: usize = 0;
    while i < words.len()
        invariant
            i <= words.len(),
            r@.len() == i,
            forall|j: int| 0 <= j < i ==> deletes(#[trigger] r@[j], words@[j].id@),
        decreases words.len() - i,
    {
        r.push(EngineRequest::DeleteWord { id: words[i].id.clone() });
        i += 1;
    }
    r
}

/// `restore`: the local snapshot is imported as it stands, overriding.
pub fn plan_restore(snapshot: String) -> (r: EngineRequest)
    ensures
        r == (EngineRequest::ImportDictionary { document: snapshot }),
{
    EngineRequest::ImportDictionary { document: snapshot }
}

/// The member the engine adds for an entry, under the id it picks.
pub open spec fn added_word(e: DictionaryEntry, new_id: Seq<char>) -> WordView {
    WordView {
        id: new_id,
        is_object: true,
        surface: Some(e.surface@),
        pronunciation: Some(e.pronunciation@),
        accent_type: Some(e.accent_type as u64),
    }
}

/// The engine's dictionary after a request, as its interface documents it:
/// an addition appends a member under a fresh id, a deletion removes the
/// members with the id, an import with override keeps the imported members and
/// those of the current ones whose surface is not imported, and the other
/// requests change nothing.
pub open spec fn engine_after(ws: Seq<WordView>, req: EngineRequest, new_id: Seq<char>) -> Seq<WordView> {
    match req {
        EngineRequest::AddWord { entry } => ws.push(added_word(entry, new_id)),
        EngineRequest::DeleteWord { id } => ws.filter(|w: WordView| w.id != id@),
        EngineRequest::ImportDictionary { document } => match dictionary_document(document@) {
            Some(Some(imported)) => imported + ws.filter(
                |w: WordView| !(w.surface matches Some(s) && has_surface(imported, s)),
            ),
            _ => ws,
        },
        _ => ws,
    }
}

/// Surface forms are unique among the members.
pub open spec fn unique_surfaces(ws: Seq<WordView>) -> bool {
    forall|i: int, j: int|
        0 <= i < ws.len() && 0 <= j < ws.len() && i != j && (#[trigger] ws[i]).surface is Some
            ==> ws[i].surface != (#[trigger] ws[j]).surface
}

/// The set of surface forms of the members.
pub open spec fn surface_set(ws: Seq<WordView>) -> Set<Seq<char>> {
    Set::new(|s: Seq<char>| has_surface(ws, s))
}

proof fn lemma_find_some(ws: Seq<WordView>, surface: Seq<char>)
    ensures
        find_id(ws, surface) is Some <==> has_surface(ws, surface),
{
    lemma_first_with_surface(ws, surface, 0);
    if has_surface(ws, surface) {
        let k = choose|k: int| 0 <= k < ws.len() && ws[k].surface == Some(surface);
        assert(first_with_surface(ws, surface, 0) <= k);
    }
}

/// After `add` the surface is found; where it was already there, `add` is
/// refused with `AlreadyExists` and sends nothing, so the dictionary stays
/// as it was.
pub proof fn lemma_add_then_find(doc: Seq<char>, ws: Seq<WordView>, entry: DictionaryEntry, new_id: Seq<char>)
    requires
        dictionary_document(doc) == Some(Some(ws)),
    ensures
        lookup(Ok(doc), entry.surface@) is Ok <==> has_surface(ws, entry.surface@),
        !has_surface(ws, entry.surface@) ==> find_id(
            engine_after(ws, EngineRequest::AddWord { entry }, new_id),
            entry.surface@,
        ) is Some,
{
    lemma_find_some(ws, entry.surface@);
    let after = ws.push(added_word(entry, new_id));
    assert(after[ws.len() as int].surface == Some(entry.surface@));
    lemma_find_some(after, entry.surface@);
}

/// After `remove` of a surface that was found, the surface is no longer
/// found once the engine drops the members with the id found; where it was
/// not found, `remove` fails with `NotFound`.
pub proof fn lemma_remove_then_find(doc: Seq<char>, ws: Seq<WordView>, surface: Seq<char>)
    requires
        dictionary_document(doc) == Some(Some(ws)),
        unique_surfaces(ws),
    ensures
        lookup(Ok(doc), surface) is Err <==> !has_surface(ws, surface),
        lookup(Ok(doc), surface) matches Ok(id) ==> find_id(
            ws.filter(|w: WordView| w.id != id),
            surface,
        ) is None,
{
    lemma_find_some(ws, surface);
    if lookup(Ok(doc), surface) is Ok {
        let id = lookup(Ok(doc), surface)->Ok_0;
        let k = first_with_surface(ws, surface, 0);
        lemma_first_with_surface(ws, surface, 0);
        let f = |w: WordView| w.id != id;
        let after = ws.filter(f);
        lemma_find_some(after, surface);
        if has_surface(after, surface) {
            let j = choose|j: int| 0 <= j < after.len() && after[j].surface == Some(surface);
            ws.lemma_filter_pred(f, j);
            assert(after.contains(after[j]));
            ws.lemma_filter_contains_rev(f, after[j]);
            let m = choose|m: int| 0 <= m < ws.len() && ws[m] == after[j];
            assert(ws[m].id != id);
            assert(ws[k].id == id);
            assert(m != k);
        }
    }
}

/// Restoring the snapshot taken from a fetched document imports that very
/// document; where the engine holds no surface that the snapshot lacks (as
/// after a reset), the surface set afterwards is the one exported.
pub proof fn lemma_restore_round_trip(doc: Seq<char>, exported: Seq<WordView>, current: Seq<WordView>, snapshot: String, new_id: Seq<char>)
    requires
        dictionary_document(doc) == Some(Some(exported)),
        snapshot@ == doc,
        surface_set(current).subset_of(surface_set(exported)),
    ensures
        surface_set(engine_after(current, EngineRequest::ImportDictionary { document: snapshot }, new_id))
            == surface_set(exported),
{
    let f = |w: WordView| !(w.surface matches Some(s) && has_surface(exported, s));
    let kept = current.filter(f);
    let after = exported + kept;
    assert(engine_after(current, EngineRequest::ImportDictionary { document: snapshot }, new_id) == after);
    assert forall|s: Seq<char>| has_surface(after, s) <==> has_surface(exported, s) by {
        if has_surface(after, s) {
            let k = choose|k: int| 0 <= k < after.len() && after[k].surface == Some(s);
            if k >= exported.len() {
                let j = k - exported.len();
                assert(kept[j] == after[k]);
                assert(kept.contains(kept[j]));
                current.lemma_filter_contains_rev(f, kept[j]);
                let m = choose|m: int| 0 <= m < current.len() && current[m] == kept[j];
                assert(current[m].surface == Some(s));
                assert(has_surface(current, s));
                assert(surface_set(current).contains(s));
            } else {
                assert(exported[k] == after[k]);
            }
        }
        if has_surface(exported, s) {
            let k = choose|k: int| 0 <= k < exported.len() && exported[k].surface == Some(s);
            assert(after[k] == exported[k]);
        }
    }
    assert(surface_set(after) =~= surface_set(exported));
}

} // verus!
