//! The edit-classification heuristic: given the state of a file when a
//! completion was proposed, the state after the user edited, and the
//! proposed text itself, decide whether the observed change still
//! represents that completion, and if so extract the user-corrected
//! completion text.
//!
//! The rules, over the line diff of the two file states:
//! - at most one non-whitespace deletion block is tolerated, and every
//!   insertion must then begin with the deleted text;
//! - once an insertion block has been closed by equal or deleted lines,
//!   no further insertion is tolerated;
//! - after an insertion of pure whitespace, no further insertion is
//!   tolerated;
//! - for a single-line suggestion, a second insertion into an open block
//!   must be pure whitespace;
//! - if a deleted line carried a trailing line feed, one trailing line
//!   feed is dropped from the collected text, and carriage returns are
//!   always dropped.

use vstd::prelude::*;
use crate::diff::{ChangeKind, DiffChange, changes_view, line_diff_of};
use crate::text::{
    chomp_newline,
    ends_with_newline,
    has_newline,
    is_prefix,
    strip_cr,
    ws_only,
};

verus! {

/// The classifier's state after some prefix of the change list.
pub struct ClassifyState {
    /// A rule was violated: the edit is not attributable.
    pub rejected: bool,
    /// No whitespace-only block has been inserted yet, so an insertion
    /// is still tolerated.
    pub allow_ws_insert: bool,
    /// An insertion block is open.
    pub adding_block: bool,
    /// An insertion block has been closed by later non-inserted content.
    pub closed_block: bool,
    /// A deleted line carried a trailing line feed.
    pub kill_newline: bool,
    /// The one tolerated deleted block, without its trailing line feed;
    /// empty while no non-whitespace deletion was seen.
    pub deletion: Seq<char>,
    /// The inserted text collected so far.
    pub added: Seq<char>,
}

/// The state before any change was examined.
pub open spec fn classify_init() -> ClassifyState {
    ClassifyState {
        rejected: false,
        allow_ws_insert: true,
        adding_block: false,
        closed_block: false,
        kill_newline: false,
        deletion: Seq::empty(),
        added: Seq::empty(),
    }
}

/// The transition taken for one change of the line diff.
pub open spec fn classify_step(
    st: ClassifyState,
    kind: ChangeKind,
    val: Seq<char>,
    multiline: bool,
) -> ClassifyState {
    if st.rejected {
        st
    } else {
        match kind {
            ChangeKind::Delete => {
                if !ws_only(val) && st.deletion.len() > 0 {
                    ClassifyState { rejected: true, ..st }
                } else {
                    ClassifyState {
                        closed_block: st.closed_block || st.adding_block,
                        kill_newline: st.kill_newline || ends_with_newline(val),
                        deletion: if !ws_only(val) {
                            chomp_newline(val)
                        } else {
                            st.deletion
                        },
                        ..st
                    }
                }
            },
            ChangeKind::Insert => {
                if !st.allow_ws_insert || st.closed_block || (st.deletion.len() > 0 && !is_prefix(
                    st.deletion,
                    val,
                )) || (st.adding_block && !multiline && !ws_only(val)) {
                    ClassifyState { rejected: true, ..st }
                } else {
                    ClassifyState {
                        allow_ws_insert: !ws_only(val),
                        adding_block: true,
                        added: st.added + val.skip(st.deletion.len() as int),
                        ..st
                    }
                }
            },
            ChangeKind::Equal => {
                ClassifyState { closed_block: st.closed_block || st.adding_block, ..st }
            },
        }
    }
}

/// The state after the whole change list.
pub open spec fn classify_run(cs: Seq<(ChangeKind, Seq<char>)>, multiline: bool) -> ClassifyState
    decreases cs.len(),
{
    if cs.len() == 0 {
        classify_init()
    } else {
        classify_step(classify_run(cs.drop_last(), multiline), cs.last().0, cs.last().1, multiline)
    }
}

/// The collected text of an accepting run: one trailing line feed
/// removed if a deleted line carried one, then carriage returns removed.
pub open spec fn classify_added(st: ClassifyState) -> Seq<char> {
    strip_cr(
        if st.kill_newline {
            chomp_newline(st.added)
        } else {
            st.added
        },
    )
}

/// What classification returns for a change list: whether the edit is
/// attributable, and if so the corrected completion text.
pub open spec fn classify_result(cs: Seq<(ChangeKind, Seq<char>)>, multiline: bool) -> (bool,
    Seq<char>) {
    let st = classify_run(cs, multiline);
    if st.rejected {
        (false, Seq::empty())
    } else {
        (true, classify_added(st))
    }
}

/// Unrolling `classify_run` one change at a time along a prefix.
proof fn lemma_classify_run_step(cs: Seq<(ChangeKind, Seq<char>)>, multiline: bool, i: int)
    requires
        0 <= i < cs.len(),
    ensures
        classify_run(cs.take(i + 1), multiline) == classify_step(
            classify_run(cs.take(i), multiline),
            cs[i].0,
            cs[i].1,
            multiline,
        ),
{
    assert(cs.take(i + 1).drop_last() =~= cs.take(i));
    assert(cs.take(i + 1).last() == cs[i]);
}

/// Once a prefix rejects, the whole change list rejects.
pub proof fn lemma_rejected_stable(cs: Seq<(ChangeKind, Seq<char>)>, multiline: bool, i: int)
    requires
        0 <= i <= cs.len(),
        classify_run(cs.take(i), multiline).rejected,
    ensures
        classify_run(cs, multiline).rejected,
    decreases cs.len() - i,
{
    if i == cs.len() {
        assert(cs.take(i) =~= cs);
    } else {
        lemma_classify_run_step(cs, multiline, i);
        lemma_rejected_stable(cs, multiline, i + 1);
    }
}

/// Run the classifier over a change list. `multiline` says whether the
/// originally suggested text spans several lines, which relaxes the
/// single-line insertion rule.
pub fn classify_changes(changes: &Vec<DiffChange>, multiline: bool) -> (r: (bool, Vec<char>))
    ensures
        r.0 == classify_result(changes_view(changes@), multiline).0,
        r.1@ == classify_result(changes_view(changes@), multiline).1,
{
    let ghost cs: Seq<(ChangeKind, Seq<char>)> = changes_view(changes@);
    let mut allow_ws_insert: bool = true;
    let mut adding_block: bool = false;
    let mut closed_block: bool = false;
    let mut kill_newline: bool = false;
    let mut deletion: Vec<char> = Vec::new();
    let mut added: Vec<char> = Vec::new();
    let mut i: usize = 0;
    proof {
        assert(cs.take(0) =~= Seq::<(ChangeKind, Seq<char>)>::empty());
    }
    while i < changes.len()
        invariant
            i <= changes.len(),
            cs == changes_view(changes@),
            !classify_run(cs.take(i as int), multiline).rejected,
            classify_run(cs.take(i as int), multiline).allow_ws_insert == allow_ws_insert,
            classify_run(cs.take(i as int), multiline).adding_block == adding_block,
            classify_run(cs.take(i as int), multiline).closed_block == closed_block,
            classify_run(cs.take(i as int), multiline).kill_newline == kill_newline,
            classify_run(cs.take(i as int), multiline).deletion == deletion@,
            classify_run(cs.take(i as int), multiline).added == added@,
        decreases changes.len() - i,
    {
        proof {
            lemma_classify_run_step(cs, multiline, i as int);
        }
        let ch = &changes[i];
        match ch.kind {
            ChangeKind::Delete => {
                let ws = crate::text::is_ws_only(&ch.text);
                if !ws {
                    if deletion.len() == 0 {
                        let mut d: Vec<char> = Vec::new();
                        crate::text::push_tail(&mut d, &ch.text, 0);
                        proof {
                            assert(d@ =~= ch.text@);
                        }
                        if d.len() > 0 && d[d.len() - 1] == '\n' {
                            d.pop();
                        }
                        deletion = d;
                    } else {
                        proof {
                            lemma_rejected_stable(cs, multiline, i + 1);
                        }
                        return (false, Vec::new());
                    }
                }
                if adding_block {
                    closed_block = true;
                }
                if ch.text.len() > 0 && ch.text[ch.text.len() - 1] == '\n' {
                    kill_newline = true;
                }
            },
            ChangeKind::Insert => {
                let ws = crate::text::is_ws_only(&ch.text);
                if !allow_ws_insert || closed_block || (deletion.len() > 0 && !crate::text::starts_with(
                    &ch.text,
                    &deletion,
                )) || (adding_block && !multiline && !ws) {
                    proof {
                        lemma_rejected_stable(cs, multiline, i + 1);
                    }
                    return (false, Vec::new());
                }
                allow_ws_insert = !ws;
                crate::text::push_tail(&mut added, &ch.text, deletion.len());
                adding_block = true;
            },
            ChangeKind::Equal => {
                if adding_block {
                    closed_block = true;
                }
            },
        }
        i += 1;
    }
    proof {
        assert(cs.take(changes@.len() as int) =~= cs);
    }
    let mut out = added;
    if kill_newline && out.len() > 0 && out[out.len() - 1] == '\n' {
        out.pop();
    }
    let clean = crate::text::strip_cr_vec(&out);
    (true, clean)
}

/// Decide whether the change from `text_a` to `text_b` still represents
/// the completion `orig_grey_text`, and return the corrected completion
/// text if it does. On rejection the returned text is empty.
pub fn if_head_tail_equal_return_added_text(
    text_a: &String,
    text_b: &String,
    orig_grey_text: &String,
) -> (r: (bool, String))
    ensures
        r.0 == classify_result(line_diff_of(text_a@, text_b@), has_newline(orig_grey_text@)).0,
        r.1@ == classify_result(line_diff_of(text_a@, text_b@), has_newline(orig_grey_text@)).1,
{
    let grey = crate::text::str_chars(orig_grey_text.as_str());
    let multiline = crate::text::contains_newline(&grey);
    let changes = crate::diff::line_changes(text_a.as_str(), text_b.as_str());
    let (ok, added) = classify_changes(&changes, multiline);
    (ok, crate::diff::chars_to_string(&added))
}

} // verus!
