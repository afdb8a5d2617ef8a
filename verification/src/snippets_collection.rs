//! The snippet record store and its lifecycle: a completion is
//! registered when served, marked accepted on the client's signal, and
//! driven by file-change events either through attributable updates or
//! to finalization (when a valid score exists) or abandonment (when
//! none does). The store is plain data; callers that share it across
//! tasks guard it with one exclusive lock around each entry point.

use vstd::prelude::*;
use crate::diff::{Similarity, char_common, line_diff_of};
use crate::heuristic::classify_result;
use crate::text::{has_newline, is_suffix};

verus! {

/// Where the completion was requested: the target file and the cursor
/// position inside it.
pub struct CursorPosition {
    /// Path of the file the completion was requested for.
    pub file: String,
    /// Zero-based cursor line.
    pub line: u64,
    /// Zero-based cursor column.
    pub character: u64,
}

/// The completion request context: the cursor and a snapshot of each
/// involved file's content at suggestion time.
pub struct CodeCompletionInputs {
    /// File path to file content, as captured when the completion was
    /// proposed.
    pub sources: Vec<(String, String)>,
    /// The request cursor.
    pub cursor: CursorPosition,
}

/// A completion request as the transport hands it over.
pub struct CodeCompletionPost {
    /// Identifier of the model that produced the suggestion.
    pub model: String,
    /// The request context.
    pub inputs: CodeCompletionInputs,
}

/// What the completion pipeline caches about the first choice of an
/// answer, enough to register a telemetry snippet for it.
pub struct CompletionSaveToCache {
    /// The suggested completion text.
    pub completion0_text: String,
    /// Why generation stopped; empty when the completion is unusable.
    pub completion0_finish_reason: String,
    /// The registered snippet id, once one was assigned.
    pub completion0_snippet_telemetry_id: Option<u64>,
}

/// Bundles the request a completion answered, for registering snippets
/// from a scratchpad.
pub struct SaveSnippet {
    /// The completion request this snippet answers.
    pub post: CodeCompletionPost,
}

/// The client's acceptance signal: which snippet was accepted.
pub struct SnippetAccepted {
    /// The id echoed back by the client.
    pub snippet_telemetry_id: u64,
}

/// One tracked completion snippet.
pub struct SnippetTracker {
    /// Unique, monotonically increasing id.
    pub snippet_telemetry_id: u64,
    /// Identifier of the model that produced the suggestion.
    pub model: String,
    /// The request context at suggestion time.
    pub inputs: CodeCompletionInputs,
    /// The exact text proposed to the user.
    pub grey_text: String,
    /// The text the user kept; empty until the first attributable
    /// update.
    pub corrected_by_user: String,
    /// The latest similarity score, or `None` while not yet evaluated.
    pub remaining_percentage: Option<Similarity>,
    /// When the record was created; timestamps are seconds, always
    /// positive, with zero meaning "has not happened".
    pub created_ts: i64,
    /// When the client accepted the completion, or zero.
    pub accepted_ts: i64,
    /// When the record was finalized, or zero.
    pub finished_ts: i64,
}

/// The process-wide store of tracked snippets.
pub struct Storage {
    /// The next id to assign; never reused.
    pub tele_snippet_next_id: u64,
    /// All records, in creation order.
    pub tele_snippets: Vec<SnippetTracker>,
}

/// Ids are strictly increasing in creation order and below the next id.
pub open spec fn ids_ok(snips: Seq<SnippetTracker>, next_id: u64) -> bool {
    &&& forall|i: int, j: int|
        0 <= i < j < snips.len() ==> snips[i].snippet_telemetry_id
            < snips[j].snippet_telemetry_id
    &&& forall|i: int| 0 <= i < snips.len() ==> snips[i].snippet_telemetry_id < next_id
}

impl Storage {
    /// The store's invariant.
    pub open spec fn wf(self) -> bool {
        ids_ok(self.tele_snippets@, self.tele_snippet_next_id)
    }

    /// An empty store.
    pub fn new() -> (s: Storage)
        ensures
            s.wf(),
            s.tele_snippets@.len() == 0,
            s.tele_snippet_next_id == 1,
    {
        Storage { tele_snippet_next_id: 1, tele_snippets: Vec::new() }
    }
}

/// Law: within a well-formed store, any two distinct records carry
/// distinct ids, whatever sequence of registrations produced them.
pub proof fn lemma_snippet_ids_unique(s: Storage, i: int, j: int)
    requires
        s.wf(),
        0 <= i < s.tele_snippets@.len(),
        0 <= j < s.tele_snippets@.len(),
        i != j,
    ensures
        s.tele_snippets@[i].snippet_telemetry_id != s.tele_snippets@[j].snippet_telemetry_id,
{
}

/// Relies on `chrono::Local::now` and `DateTime::timestamp`: the
/// current wall-clock time as whole seconds since the Unix epoch.
#[verifier::external_body]
fn chrono_now_seconds() -> i64 {
    chrono::Local::now().timestamp()
}

/// The current time as a positive number of seconds, so that zero can
/// keep meaning "has not happened".
fn current_time() -> (t: i64)
    ensures
        t >= 1,
{
    let t = chrono_now_seconds();
    if t < 1 {
        1
    } else {
        t
    }
}

/// An owned copy of a string, equal to the original.
fn clone_string(s: &String) -> (r: String)
    ensures
        r == *s,
{
    s.clone()
}

/// An owned copy of a sources snapshot, equal to the original.
fn clone_sources(v: &Vec<(String, String)>) -> (r: Vec<(String, String)>)
    ensures
        r@ == v@,
{
    let mut out: Vec<(String, String)> = Vec::new();
    let mut i: usize = 0;
    while i < v.len()
        invariant
            i <= v@.len(),
            out@ == v@.take(i as int),
        decreases v.len() - i,
    {
        let p = &v[i];
        out.push((p.0.clone(), p.1.clone()));
        proof {
            assert(out@ =~= v@.take(i + 1));
        }
        i += 1;
    }
    proof {
        assert(v@.take(v@.len() as int) =~= v@);
    }
    out
}

/// Two request contexts hold the same data.
pub open spec fn same_inputs(a: CodeCompletionInputs, b: CodeCompletionInputs) -> bool {
    a.sources@ == b.sources@ && a.cursor == b.cursor
}

/// Two records hold the same data.
pub open spec fn same_snippet(a: SnippetTracker, b: SnippetTracker) -> bool {
    &&& a.snippet_telemetry_id == b.snippet_telemetry_id
    &&& a.model == b.model
    &&& same_inputs(a.inputs, b.inputs)
    &&& a.grey_text == b.grey_text
    &&& a.corrected_by_user == b.corrected_by_user
    &&& a.remaining_percentage == b.remaining_percentage
    &&& a.created_ts == b.created_ts
    &&& a.accepted_ts == b.accepted_ts
    &&& a.finished_ts == b.finished_ts
}

/// An owned copy of a request context, holding the same data.
fn clone_inputs(inputs: &CodeCompletionInputs) -> (r: CodeCompletionInputs)
    ensures
        same_inputs(r, *inputs),
{
    CodeCompletionInputs {
        sources: clone_sources(&inputs.sources),
        cursor: CursorPosition {
            file: inputs.cursor.file.clone(),
            line: inputs.cursor.line,
            character: inputs.cursor.character,
        },
    }
}

/// An owned copy of a tracked record, holding the same data.
fn clone_snippet(s: &SnippetTracker) -> (r: SnippetTracker)
    ensures
        same_snippet(r, *s),
{
    SnippetTracker {
        snippet_telemetry_id: s.snippet_telemetry_id,
        model: s.model.clone(),
        inputs: clone_inputs(&s.inputs),
        grey_text: s.grey_text.clone(),
        corrected_by_user: s.corrected_by_user.clone(),
        remaining_percentage: s.remaining_percentage,
        created_ts: s.created_ts,
        accepted_ts: s.accepted_ts,
        finished_ts: s.finished_ts,
    }
}

impl SaveSnippet {
    /// Bundle a completion request for later snippet registration.
    pub fn new(post: &CodeCompletionPost) -> (s: Self)
        ensures
            s.post.model == post.model,
            same_inputs(s.post.inputs, post.inputs),
    {
        SaveSnippet {
            post: CodeCompletionPost {
                model: post.model.clone(),
                inputs: clone_inputs(&post.inputs),
            },
        }
    }
}

/// What a freshly registered record holds.
pub open spec fn registered_snippet(
    snip: SnippetTracker,
    p: CodeCompletionPost,
    grey: Seq<char>,
    id: u64,
) -> bool {
    &&& snip.snippet_telemetry_id == id
    &&& snip.model == p.model
    &&& same_inputs(snip.inputs, p.inputs)
    &&& snip.grey_text@ == grey
    &&& snip.corrected_by_user@.len() == 0
    &&& snip.remaining_percentage is None
    &&& snip.created_ts >= 1
    &&& snip.accepted_ts == 0
    &&& snip.finished_ts == 0
}

/// How registration changes the store: the next id is assigned and
/// advanced, and one fresh record is appended; the id differs from
/// every id already present.
pub open spec fn register_post(
    pre: Storage,
    post: Storage,
    p: CodeCompletionPost,
    grey: Seq<char>,
    id: u64,
) -> bool {
    &&& id == pre.tele_snippet_next_id
    &&& post.tele_snippet_next_id == id + 1
    &&& post.tele_snippets@.len() == pre.tele_snippets@.len() + 1
    &&& post.tele_snippets@.drop_last() == pre.tele_snippets@
    &&& registered_snippet(post.tele_snippets@.last(), p, grey, id)
    &&& forall|i: int|
        0 <= i < pre.tele_snippets@.len() ==> pre.tele_snippets@[i].snippet_telemetry_id != id
}

/// Append a fresh record for a served completion and return its id.
pub fn snippet_register(storage: &mut Storage, ss: &SaveSnippet, grey_text: String) -> (id: u64)
    requires
        old(storage).wf(),
        old(storage).tele_snippet_next_id < u64::MAX,
    ensures
        final(storage).wf(),
        register_post(*old(storage), *final(storage), ss.post, grey_text@, id),
{
    let now = current_time();
    let id = storage.tele_snippet_next_id;
    let snip = SnippetTracker {
        snippet_telemetry_id: id,
        model: ss.post.model.clone(),
        inputs: clone_inputs(&ss.post.inputs),
        grey_text,
        corrected_by_user: String::new(),
        remaining_percentage: None,
        created_ts: now,
        accepted_ts: 0,
        finished_ts: 0,
    };
    storage.tele_snippet_next_id = id + 1;
    storage.tele_snippets.push(snip);
    proof {
        assert(storage.tele_snippets@.drop_last() =~= old(storage).tele_snippets@);
    }
    id
}

/// Register a snippet for a cached completion answer, unless the
/// completion carried no usable finish reason; on success the assigned
/// id is stored into the cache entry for the client to echo back.
pub fn snippet_register_from_data4cache(
    storage: &mut Storage,
    ss: &SaveSnippet,
    data4cache: &mut CompletionSaveToCache,
)
    requires
        old(storage).wf(),
        old(storage).tele_snippet_next_id < u64::MAX,
    ensures
        final(storage).wf(),
        old(data4cache).completion0_finish_reason@.len() == 0 ==> *final(storage) == *old(storage)
            && *final(data4cache) == *old(data4cache),
        old(data4cache).completion0_finish_reason@.len() > 0 ==> {
            &&& register_post(
                *old(storage),
                *final(storage),
                ss.post,
                old(data4cache).completion0_text@,
                old(storage).tele_snippet_next_id,
            )
            &&& final(data4cache).completion0_snippet_telemetry_id == Some(
                old(storage).tele_snippet_next_id,
            )
            &&& final(data4cache).completion0_text == old(data4cache).completion0_text
            &&& final(data4cache).completion0_finish_reason == old(
                data4cache,
            ).completion0_finish_reason
        },
{
    if data4cache.completion0_finish_reason.as_str().is_empty() {
        return;
    }
    let grey = clone_string(&data4cache.completion0_text);
    let id = snippet_register(storage, ss, grey);
    data4cache.completion0_snippet_telemetry_id = Some(id);
}

/// Whether the store has an unfinished record with this id.
pub open spec fn has_unfinished(snips: Seq<SnippetTracker>, id: u64) -> bool {
    exists|i: int|
        0 <= i < snips.len() && snips[i].snippet_telemetry_id == id && snips[i].finished_ts == 0
}

/// Mark the record with this id as accepted now. Unknown or already
/// finished ids report failure and change nothing; a repeated call on a
/// known id succeeds again and only refreshes the acceptance time.
pub fn snippet_accepted(storage: &mut Storage, snippet_telemetry_id: u64) -> (found: bool)
    requires
        old(storage).wf(),
    ensures
        final(storage).wf(),
        found == has_unfinished(old(storage).tele_snippets@, snippet_telemetry_id),
        !found ==> *final(storage) == *old(storage),
        found ==> exists|i: int|
            {
                &&& 0 <= i < old(storage).tele_snippets@.len()
                &&& old(storage).tele_snippets@[i].snippet_telemetry_id == snippet_telemetry_id
                &&& old(storage).tele_snippets@[i].finished_ts == 0
                &&& final(storage).tele_snippets@[i].accepted_ts >= 1
                &&& final(storage).tele_snippets@ == old(storage).tele_snippets@.update(
                    i,
                    (SnippetTracker {
                        accepted_ts: final(storage).tele_snippets@[i].accepted_ts,
                        ..old(storage).tele_snippets@[i]
                    }),
                )
            },
        final(storage).tele_snippet_next_id == old(storage).tele_snippet_next_id,
{
    let now = current_time();
    let n = storage.tele_snippets.len();
    let mut i: usize = 0;
    while i < n
        invariant
            now >= 1,
            i <= n,
            n == storage.tele_snippets@.len(),
            *storage == *old(storage),
            old(storage).wf(),
            forall|k: int|
                0 <= k < i ==> !(storage.tele_snippets@[k].snippet_telemetry_id
                    == snippet_telemetry_id && storage.tele_snippets@[k].finished_ts == 0),
        decreases n - i,
    {
        let hit = storage.tele_snippets[i].snippet_telemetry_id == snippet_telemetry_id
            && storage.tele_snippets[i].finished_ts == 0;
        if hit {
            let elem = &mut storage.tele_snippets[i];
            elem.accepted_ts = now;
            proof {
                let snips0 = old(storage).tele_snippets@;
                let snips1 = storage.tele_snippets@;
                let upd = snips1[i as int];
                assert(has_unfinished(snips0, snippet_telemetry_id));
                assert(snips1 == snips0.update(i as int, upd));
                assert(snips1[i as int] == upd);
                assert(upd.accepted_ts == now);
                assert(upd == (SnippetTracker { accepted_ts: upd.accepted_ts, ..snips0[i as int] }));
                assert forall|k: int| 0 <= k < snips1.len() implies snips1[k].snippet_telemetry_id
                    == snips0[k].snippet_telemetry_id by {
                    if k != i {
                        assert(snips1[k] == snips0[k]);
                    }
                }
                assert(ids_ok(snips0, old(storage).tele_snippet_next_id));
                assert(storage.tele_snippet_next_id == old(storage).tele_snippet_next_id);
                assert(ids_ok(snips1, storage.tele_snippet_next_id)) by {
                    assert forall|p: int, q: int| 0 <= p < q < snips1.len() implies snips1[
                        p
                    ].snippet_telemetry_id < snips1[q].snippet_telemetry_id by {
                        assert(snips1[p].snippet_telemetry_id == snips0[p].snippet_telemetry_id);
                        assert(snips1[q].snippet_telemetry_id == snips0[q].snippet_telemetry_id);
                    }
                    assert forall|p: int| 0 <= p < snips1.len() implies snips1[
                        p
                    ].snippet_telemetry_id < storage.tele_snippet_next_id by {
                        assert(snips1[p].snippet_telemetry_id == snips0[p].snippet_telemetry_id);
                    }
                }
                assert((exists|j: int|
                    {
                        &&& 0 <= j < snips0.len()
                        &&& snips0[j].snippet_telemetry_id == snippet_telemetry_id
                        &&& snips0[j].finished_ts == 0
                        &&& snips1[j].accepted_ts >= 1
                        &&& snips1 == snips0.update(
                            j,
                            (SnippetTracker { accepted_ts: snips1[j].accepted_ts, ..snips0[j] }),
                        )
                    })) by {
                    assert({
                        &&& 0 <= i < snips0.len()
                        &&& snips0[i as int].snippet_telemetry_id == snippet_telemetry_id
                        &&& snips0[i as int].finished_ts == 0
                        &&& snips1[i as int].accepted_ts >= 1
                        &&& snips1 == snips0.update(
                            i as int,
                            (SnippetTracker {
                                accepted_ts: snips1[i as int].accepted_ts,
                                ..snips0[i as int]
                            }),
                        )
                    });
                }
            }
            return true;
        }
        i += 1;
    }
    false
}

/// The content snapshot stored for `file`, if any: the first matching
/// entry of the sources list.
pub open spec fn sources_lookup(sources: Seq<(String, String)>, file: Seq<char>) -> Option<
    Seq<char>,
>
    decreases sources.len(),
{
    if sources.len() == 0 {
        None
    } else if sources.first().0@ == file {
        Some(sources.first().1@)
    } else {
        sources_lookup(sources.drop_first(), file)
    }
}

/// The stored original content for the record's target file, empty if
/// none is present.
pub open spec fn orig_of(snip: SnippetTracker) -> Seq<char> {
    match sources_lookup(snip.inputs.sources@, snip.inputs.cursor.file@) {
        Some(s) => s,
        None => Seq::empty(),
    }
}

/// A file-change event for `uri` concerns this record: it is accepted,
/// not yet finished, its target file is a suffix of the changed uri,
/// and an original content snapshot for that file is present.
pub open spec fn snippet_eligible(snip: SnippetTracker, uri: Seq<char>) -> bool {
    &&& snip.accepted_ts != 0
    &&& snip.finished_ts == 0
    &&& is_suffix(snip.inputs.cursor.file@, uri)
    &&& sources_lookup(snip.inputs.sources@, snip.inputs.cursor.file@) is Some
}

/// What classification yields for this record against the new text.
pub open spec fn snippet_classify(snip: SnippetTracker, text: Seq<char>) -> (bool, Seq<char>) {
    classify_result(line_diff_of(orig_of(snip), text), has_newline(snip.grey_text@))
}

/// The record is finalized by this event: it is eligible, the edit is
/// no longer attributable, and a valid score from an earlier
/// attributable update exists.
pub open spec fn snippet_finalizes(snip: SnippetTracker, uri: Seq<char>, text: Seq<char>) -> bool {
    &&& snippet_eligible(snip, uri)
    &&& !snippet_classify(snip, text).0
    &&& snip.remaining_percentage is Some
}

/// How one file-change event carries a record from `pre` to `post`:
/// untouched when not eligible; corrected text and score refreshed on
/// an attributable edit; finalized at `now` on an unattributable edit
/// when a valid score exists; reset to not-accepted (abandoned)
/// otherwise.
pub open spec fn snippet_updated(
    pre: SnippetTracker,
    post: SnippetTracker,
    uri: Seq<char>,
    text: Seq<char>,
    now: i64,
) -> bool {
    if !snippet_eligible(pre, uri) {
        post == pre
    } else {
        let res = snippet_classify(pre, text);
        if res.0 {
            &&& post == (SnippetTracker {
                corrected_by_user: post.corrected_by_user,
                remaining_percentage: post.remaining_percentage,
                ..pre
            })
            &&& post.corrected_by_user@ == res.1
            &&& post.remaining_percentage == Some(
                Similarity {
                    numerator: char_common(res.1, pre.grey_text@) as usize,
                    denominator: (if res.1.len() >= pre.grey_text@.len() {
                        res.1.len()
                    } else {
                        pre.grey_text@.len()
                    }) as usize,
                },
            )
        } else if pre.remaining_percentage is Some {
            post == (SnippetTracker { finished_ts: now, ..pre })
        } else {
            post == (SnippetTracker { accepted_ts: 0, ..pre })
        }
    }
}

/// The records a file-change event finalizes, in store order, each
/// stamped with the finalization time.
pub open spec fn finished_seq(
    snips: Seq<SnippetTracker>,
    uri: Seq<char>,
    text: Seq<char>,
    now: i64,
) -> Seq<SnippetTracker>
    decreases snips.len(),
{
    if snips.len() == 0 {
        Seq::empty()
    } else {
        finished_seq(snips.drop_last(), uri, text, now) + if snippet_finalizes(
            snips.last(),
            uri,
            text,
        ) {
            seq![(SnippetTracker { finished_ts: now, ..snips.last() })]
        } else {
            Seq::empty()
        }
    }
}

/// The two record sequences hold the same data, element for element.
pub open spec fn same_snippets(a: Seq<SnippetTracker>, b: Seq<SnippetTracker>) -> bool {
    a.len() == b.len() && forall|i: int| 0 <= i < a.len() ==> same_snippet(a[i], b[i])
}

/// How one file-change event carries the whole store from `pre` to
/// `post`: ids and count are untouched, every record moves as
/// `snippet_updated` says, and `finished` holds exactly the finalized
/// records, in order.
pub open spec fn sources_changed_post(
    pre: Storage,
    post: Storage,
    finished: Seq<SnippetTracker>,
    uri: Seq<char>,
    text: Seq<char>,
    now: i64,
) -> bool {
    &&& post.tele_snippet_next_id == pre.tele_snippet_next_id
    &&& post.tele_snippets@.len() == pre.tele_snippets@.len()
    &&& forall|i: int|
        0 <= i < pre.tele_snippets@.len() ==> snippet_updated(
            pre.tele_snippets@[i],
            post.tele_snippets@[i],
            uri,
            text,
            now,
        )
    &&& same_snippets(finished, finished_seq(pre.tele_snippets@, uri, text, now))
}

/// One step of `finished_seq` along a prefix.
proof fn lemma_finished_seq_step(
    snips: Seq<SnippetTracker>,
    uri: Seq<char>,
    text: Seq<char>,
    now: i64,
    i: int,
)
    requires
        0 <= i < snips.len(),
    ensures
        finished_seq(snips.take(i + 1), uri, text, now) == finished_seq(
            snips.take(i),
            uri,
            text,
            now,
        ) + if snippet_finalizes(snips[i], uri, text) {
            seq![(SnippetTracker { finished_ts: now, ..snips[i] })]
        } else {
            Seq::<SnippetTracker>::empty()
        },
{
    assert(snips.take(i + 1).drop_last() =~= snips.take(i));
    assert(snips.take(i + 1).last() == snips[i]);
}

/// A non-finalizing record leaves the finished list as it was.
proof fn lemma_finished_unchanged(
    snips: Seq<SnippetTracker>,
    uri: Seq<char>,
    text: Seq<char>,
    now: i64,
    i: int,
    fin: Seq<SnippetTracker>,
)
    requires
        0 <= i < snips.len(),
        !snippet_finalizes(snips[i], uri, text),
        same_snippets(fin, finished_seq(snips.take(i), uri, text, now)),
    ensures
        same_snippets(fin, finished_seq(snips.take(i + 1), uri, text, now)),
{
    lemma_finished_seq_step(snips, uri, text, now, i);
    assert(finished_seq(snips.take(i + 1), uri, text, now) =~= finished_seq(
        snips.take(i),
        uri,
        text,
        now,
    ));
}

/// A finalizing record appends its stamped copy to the finished list.
proof fn lemma_finished_push(
    snips: Seq<SnippetTracker>,
    uri: Seq<char>,
    text: Seq<char>,
    now: i64,
    i: int,
    fin: Seq<SnippetTracker>,
    fin1: Seq<SnippetTracker>,
    copy: SnippetTracker,
)
    requires
        0 <= i < snips.len(),
        snippet_finalizes(snips[i], uri, text),
        same_snippets(fin, finished_seq(snips.take(i), uri, text, now)),
        fin1 == fin.push(copy),
        same_snippet(copy, (SnippetTracker { finished_ts: now, ..snips[i] })),
    ensures
        same_snippets(fin1, finished_seq(snips.take(i + 1), uri, text, now)),
{
    lemma_finished_seq_step(snips, uri, text, now, i);
    let ft = finished_seq(snips.take(i), uri, text, now);
    let ft1 = finished_seq(snips.take(i + 1), uri, text, now);
    assert(ft1 =~= ft.push((SnippetTracker { finished_ts: now, ..snips[i] })));
    assert forall|k: int| 0 <= k < fin1.len() implies same_snippet(fin1[k], ft1[k]) by {
        if k < fin.len() {
            assert(fin1[k] == fin[k]);
            assert(ft1[k] == ft[k]);
        } else {
            assert(fin1[k] == copy);
            assert(ft1[k] == (SnippetTracker { finished_ts: now, ..snips[i] }));
        }
    }
}

/// The first matching source entry for `file`, as an owned copy.
fn lookup_source(sources: &Vec<(String, String)>, file: &String) -> (r: Option<String>)
    ensures
        (r is Some) == (sources_lookup(sources@, file@) is Some),
        match r {
            Some(s) => sources_lookup(sources@, file@) == Some(s@),
            None => true,
        },
{
    let mut i: usize = 0;
    proof {
        assert(sources@.skip(0) =~= sources@);
    }
    while i < sources.len()
        invariant
            i <= sources@.len(),
            sources_lookup(sources@, file@) == sources_lookup(sources@.skip(i as int), file@),
        decreases sources.len() - i,
    {
        let p = &sources[i];
        proof {
            assert(sources@.skip(i as int).first() == sources@[i as int]);
            assert(sources@.skip(i as int).drop_first() =~= sources@.skip(i + 1));
        }
        if p.0 == *file {
            return Some(clone_string(&p.1));
        }
        i += 1;
    }
    proof {
        assert(sources@.skip(sources@.len() as int) =~= Seq::<(String, String)>::empty());
    }
    None
}

/// React to a file-change event at time `now`: every eligible record is
/// reclassified against the new text and updated, finalized, or
/// abandoned; the finalized records are returned, in order, for
/// delivery to the aggregation collaborators.
#[verifier::rlimit(60)]
pub fn sources_changed_at(
    storage: &mut Storage,
    uri: &String,
    text: &String,
    now: i64,
) -> (finished: Vec<SnippetTracker>)
    requires
        old(storage).wf(),
        now >= 1,
    ensures
        final(storage).wf(),
        sources_changed_post(*old(storage), *final(storage), finished@, uri@, text@, now),
{
    let uri_chars = crate::text::str_chars(uri.as_str());
    let n = storage.tele_snippets.len();
    let mut finished: Vec<SnippetTracker> = Vec::new();
    let mut i: usize = 0;
    proof {
        assert(old(storage).tele_snippets@.take(0) =~= Seq::<SnippetTracker>::empty());
    }
    while i < n
        invariant
            now >= 1,
            i <= n,
            old(storage).wf(),
            n == old(storage).tele_snippets@.len(),
            storage.tele_snippets@.len() == n,
            storage.tele_snippet_next_id == old(storage).tele_snippet_next_id,
            uri_chars@ == uri@,
            forall|k: int|
                0 <= k < i ==> snippet_updated(
                    old(storage).tele_snippets@[k],
                    storage.tele_snippets@[k],
                    uri@,
                    text@,
                    now,
                ),
            forall|k: int|
                i <= k < n ==> storage.tele_snippets@[k] == old(storage).tele_snippets@[k],
            same_snippets(
                finished@,
                finished_seq(old(storage).tele_snippets@.take(i as int), uri@, text@, now),
            ),
        decreases n - i,
    {
        let ghost snips0: Seq<SnippetTracker> = old(storage).tele_snippets@;
        let ghost pre_snip: SnippetTracker = storage.tele_snippets@[i as int];
        let ghost fin_pre: Seq<SnippetTracker> = finished@;
        proof {
            assert(pre_snip == snips0[i as int]);
        }
        let mut orig_text_opt: Option<String> = None;
        {
            let snip = &storage.tele_snippets[i];
            if snip.accepted_ts != 0 && snip.finished_ts == 0 {
                let file_chars = crate::text::str_chars(snip.inputs.cursor.file.as_str());
                if crate::text::ends_with(&uri_chars, &file_chars) {
                    orig_text_opt = lookup_source(&snip.inputs.sources, &snip.inputs.cursor.file);
                }
            }
        }
        proof {
            assert(snippet_eligible(pre_snip, uri@) == (orig_text_opt is Some));
        }
        match orig_text_opt {
            None => {
                proof {
                    assert(snippet_updated(pre_snip, storage.tele_snippets@[i as int], uri@, text@,
                        now));
                    lemma_finished_unchanged(snips0, uri@, text@, now, i as int, finished@);
                }
            },
            Some(orig_text) => {
                let grey = clone_string(&storage.tele_snippets[i].grey_text);
                proof {
                    assert(orig_text@ == orig_of(pre_snip));
                }
                let (grey_valid, grey_corrected) =
                    crate::heuristic::if_head_tail_equal_return_added_text(&orig_text, text, &grey);
                if grey_valid {
                    let sim = crate::diff::unchanged_percentage(&grey_corrected, &grey);
                    let ghost res: (bool, Seq<char>) = snippet_classify(pre_snip, text@);
                    proof {
                        assert(res.0);
                        assert(grey_corrected@ == res.1);
                        assert(sim.numerator == char_common(res.1, pre_snip.grey_text@));
                    }
                    let elem = &mut storage.tele_snippets[i];
                    elem.corrected_by_user = grey_corrected;
                    elem.remaining_percentage = Some(sim);
                    proof {
                        let post = storage.tele_snippets@[i as int];
                        assert(post == (SnippetTracker {
                            corrected_by_user: post.corrected_by_user,
                            remaining_percentage: post.remaining_percentage,
                            ..pre_snip
                        }));
                        assert(post.remaining_percentage == Some(
                            Similarity {
                                numerator: char_common(res.1, pre_snip.grey_text@) as usize,
                                denominator: (if res.1.len() >= pre_snip.grey_text@.len() {
                                    res.1.len()
                                } else {
                                    pre_snip.grey_text@.len()
                                }) as usize,
                            },
                        ));
                        assert(snippet_updated(pre_snip, post, uri@, text@, now));
                        assert(!snippet_finalizes(pre_snip, uri@, text@));
                        lemma_finished_unchanged(snips0, uri@, text@, now, i as int, finished@);
                    }
                } else {
                    let has_score = storage.tele_snippets[i].remaining_percentage.is_some();
                    if has_score {
                        {
                            let elem = &mut storage.tele_snippets[i];
                            elem.finished_ts = now;
                        }
                        proof {
                            assert(storage.tele_snippets@[i as int] == (SnippetTracker {
                                finished_ts: now,
                                ..pre_snip
                            }));
                            assert(snippet_finalizes(pre_snip, uri@, text@));
                            assert(snippet_updated(pre_snip, storage.tele_snippets@[i as int],
                                uri@, text@, now));
                        }
                        let copy = clone_snippet(&storage.tele_snippets[i]);
                        let ghost copy_g: SnippetTracker = copy;
                        finished.push(copy);
                        proof {
                            assert(same_snippet(copy_g, (SnippetTracker {
                                finished_ts: now,
                                ..pre_snip
                            })));
                            lemma_finished_push(snips0, uri@, text@, now, i as int, fin_pre,
                                finished@, copy_g);
                        }
                    } else {
                        let elem = &mut storage.tele_snippets[i];
                        elem.accepted_ts = 0;
                        proof {
                            assert(storage.tele_snippets@[i as int] == (SnippetTracker {
                                accepted_ts: 0,
                                ..pre_snip
                            }));
                            assert(snippet_updated(pre_snip, storage.tele_snippets@[i as int],
                                uri@, text@, now));
                            assert(!snippet_finalizes(pre_snip, uri@, text@));
                            lemma_finished_unchanged(snips0, uri@, text@, now, i as int, finished@);
                        }
                    }
                }
            },
        }
        i += 1;
    }
    proof {
        assert(old(storage).tele_snippets@.take(n as int) =~= old(storage).tele_snippets@);
        assert(storage.wf()) by {
            assert forall|p: int, q: int|
                0 <= p < q < n implies storage.tele_snippets@[p].snippet_telemetry_id < storage.tele_snippets@[q].snippet_telemetry_id by {
                assert(snippet_updated(old(storage).tele_snippets@[p], storage.tele_snippets@[p],
                    uri@, text@, now));
                assert(snippet_updated(old(storage).tele_snippets@[q], storage.tele_snippets@[q],
                    uri@, text@, now));
                assert(storage.tele_snippets@[p].snippet_telemetry_id == old(
                    storage,
                ).tele_snippets@[p].snippet_telemetry_id);
                assert(storage.tele_snippets@[q].snippet_telemetry_id == old(
                    storage,
                ).tele_snippets@[q].snippet_telemetry_id);
            }
            assert forall|p: int|
                0 <= p < n implies storage.tele_snippets@[p].snippet_telemetry_id < storage.tele_snippet_next_id by {
                assert(snippet_updated(old(storage).tele_snippets@[p], storage.tele_snippets@[p],
                    uri@, text@, now));
                assert(storage.tele_snippets@[p].snippet_telemetry_id == old(
                    storage,
                ).tele_snippets@[p].snippet_telemetry_id);
            }
        }
    }
    finished
}

/// React to a file-change event at the current time; see
/// `sources_changed_at`.
pub fn sources_changed(storage: &mut Storage, uri: &String, text: &String) -> (finished: Vec<
    SnippetTracker,
>)
    requires
        old(storage).wf(),
    ensures
        final(storage).wf(),
        exists|now: i64|
            now >= 1 && #[trigger] sources_changed_post(
                *old(storage),
                *final(storage),
                finished@,
                uri@,
                text@,
                now,
            ),
{
    let now = current_time();
    let r = sources_changed_at(storage, uri, text, now);
    r
}

/// How many records of the sequence carry this id.
pub open spec fn count_id(s: Seq<SnippetTracker>, id: u64) -> nat
    decreases s.len(),
{
    if s.len() == 0 {
        0
    } else {
        count_id(s.drop_last(), id) + if s.last().snippet_telemetry_id == id {
            1nat
        } else {
            0nat
        }
    }
}

/// Law (abandonment): a record hit by an unattributable edit while it
/// never received a valid score is reset to not-accepted, and such a
/// record is not finalized by the event.
pub proof fn lemma_abandonment_resets(
    pre: SnippetTracker,
    post: SnippetTracker,
    uri: Seq<char>,
    text: Seq<char>,
    now: i64,
)
    requires
        snippet_updated(pre, post, uri, text, now),
        snippet_eligible(pre, uri),
        !snippet_classify(pre, text).0,
        pre.remaining_percentage is None,
    ensures
        post.accepted_ts == 0,
        !snippet_finalizes(pre, uri, text),
{
}

/// Law (finalization is terminal): a record the event finalizes is
/// stamped with the event's time and can never again be eligible for a
/// file-change event.
pub proof fn lemma_finalized_is_terminal(
    pre: SnippetTracker,
    post: SnippetTracker,
    uri: Seq<char>,
    text: Seq<char>,
    now: i64,
)
    requires
        snippet_updated(pre, post, uri, text, now),
        snippet_finalizes(pre, uri, text),
        now >= 1,
    ensures
        post.finished_ts == now,
        forall|u: Seq<char>| !snippet_eligible(post, u),
{
}

/// No record of the sequence carries the id, so neither does any
/// finalized copy.
proof fn lemma_count_id_zero(
    snips: Seq<SnippetTracker>,
    uri: Seq<char>,
    text: Seq<char>,
    now: i64,
    id: u64,
)
    requires
        forall|j: int| 0 <= j < snips.len() ==> snips[j].snippet_telemetry_id != id,
    ensures
        count_id(finished_seq(snips, uri, text, now), id) == 0,
    decreases snips.len(),
{
    if snips.len() == 0 {
    } else {
        let rest = snips.drop_last();
        lemma_count_id_zero(rest, uri, text, now, id);
        let fs = finished_seq(rest, uri, text, now);
        if snippet_finalizes(snips.last(), uri, text) {
            let r = (SnippetTracker { finished_ts: now, ..snips.last() });
            assert((fs + seq![r]).drop_last() =~= fs);
            assert((fs + seq![r]).last() == r);
            assert(r.snippet_telemetry_id == snips.last().snippet_telemetry_id);
            assert(snips.last() == snips[snips.len() - 1]);
        } else {
            assert(fs + Seq::<SnippetTracker>::empty() =~= fs);
        }
    }
}

/// Law (delivery): with pairwise distinct ids, a record the event
/// finalizes appears in the finished output exactly once, and a record
/// it does not finalize never appears there.
pub proof fn lemma_finished_delivery(
    snips: Seq<SnippetTracker>,
    uri: Seq<char>,
    text: Seq<char>,
    now: i64,
    i: int,
)
    requires
        0 <= i < snips.len(),
        forall|p: int, q: int|
            0 <= p < q < snips.len() ==> snips[p].snippet_telemetry_id
                != snips[q].snippet_telemetry_id,
    ensures
        count_id(finished_seq(snips, uri, text, now), snips[i].snippet_telemetry_id) == (
        if snippet_finalizes(snips[i], uri, text) {
            1nat
        } else {
            0nat
        }),
    decreases snips.len(),
{
    let id = snips[i].snippet_telemetry_id;
    let rest = snips.drop_last();
    let fs = finished_seq(rest, uri, text, now);
    if i == snips.len() - 1 {
        assert(forall|j: int| 0 <= j < rest.len() ==> rest[j].snippet_telemetry_id != id);
        lemma_count_id_zero(rest, uri, text, now, id);
        if snippet_finalizes(snips.last(), uri, text) {
            let r = (SnippetTracker { finished_ts: now, ..snips.last() });
            assert((fs + seq![r]).drop_last() =~= fs);
            assert((fs + seq![r]).last() == r);
        } else {
            assert(fs + Seq::<SnippetTracker>::empty() =~= fs);
        }
    } else {
        assert(forall|p: int, q: int|
            0 <= p < q < rest.len() ==> rest[p].snippet_telemetry_id
                != rest[q].snippet_telemetry_id);
        assert(rest[i] == snips[i]);
        lemma_finished_delivery(rest, uri, text, now, i);
        if snippet_finalizes(snips.last(), uri, text) {
            let r = (SnippetTracker { finished_ts: now, ..snips.last() });
            assert((fs + seq![r]).drop_last() =~= fs);
            assert((fs + seq![r]).last() == r);
            assert(snips.last() == snips[snips.len() - 1]);
            assert(r.snippet_telemetry_id != id);
        } else {
            assert(fs + Seq::<SnippetTracker>::empty() =~= fs);
        }
    }
}

} // verus!
