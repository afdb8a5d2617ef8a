//! Line-level and character-level text comparison. The diffs themselves
//! come from the `similar` crate through trusted wrappers; everything
//! that interprets a diff is verified against the change list.

use vstd::prelude::*;
use vstd::std_specs::vec::spec_vec_len;

use crate::text::strip_cr;

verus! {

/// What a single diff change does to the old text.
#[derive(Debug, Clone, Copy, PartialEq, Eq, Structural)]
pub enum ChangeKind {
    /// The span occurs only in the old text.
    Delete,
    /// The span occurs only in the new text.
    Insert,
    /// The span occurs in both texts.
    Equal,
}

/// One change of a diff: a kind and the span of text it covers.
#[derive(Debug)]
pub struct DiffChange {
    /// Whether the span was deleted, inserted, or kept.
    pub kind: ChangeKind,
    /// The characters of the span. For a line diff this is one line,
    /// trailing line feed included; for a character diff, one character.
    pub text: Vec<char>,
}

/// The mathematical value of one change.
pub open spec fn change_view(c: DiffChange) -> (ChangeKind, Seq<char>) {
    (c.kind, c.text@)
}

/// The mathematical value of a change list.
pub open spec fn changes_view(v: Seq<DiffChange>) -> Seq<(ChangeKind, Seq<char>)> {
    Seq::new(v.len(), |i: int| change_view(v[i]))
}

/// The line-granularity diff of two texts, as `similar::TextDiff::from_lines`
/// computes it. It depends on the two texts alone.
pub uninterp spec fn line_diff_of(a: Seq<char>, b: Seq<char>) -> Seq<(ChangeKind, Seq<char>)>;

/// The character-granularity diff of two texts, as
/// `similar::TextDiff::from_chars` computes it. It depends on the two
/// texts alone.
pub uninterp spec fn char_diff_of(a: Seq<char>, b: Seq<char>) -> Seq<(ChangeKind, Seq<char>)>;

/// The concatenation, in order, of the spans of every change of kind `k`.
pub open spec fn kind_concat(cs: Seq<(ChangeKind, Seq<char>)>, k: ChangeKind) -> Seq<char>
    decreases cs.len(),
{
    if cs.len() == 0 {
        Seq::empty()
    } else {
        kind_concat(cs.drop_last(), k) + if cs.last().0 == k {
            cs.last().1
        } else {
            Seq::empty()
        }
    }
}

/// The total number of characters the diff marks `Equal`.
pub open spec fn equal_total(cs: Seq<(ChangeKind, Seq<char>)>) -> nat
    decreases cs.len(),
{
    if cs.len() == 0 {
        0
    } else {
        equal_total(cs.drop_last()) + if cs.last().0 == ChangeKind::Equal {
            cs.last().1.len()
        } else {
            0
        }
    }
}

/// The number of characters of `a` and `b` that the character diff marks
/// `Equal`.
pub open spec fn char_common(a: Seq<char>, b: Seq<char>) -> nat {
    equal_total(char_diff_of(a, b))
}

/// Relies on `similar::TextDiff::from_lines` and `iter_all_changes`:
/// the change list is a pure function of the two texts.
#[verifier::external_body]
pub(crate) fn line_changes(a: &str, b: &str) -> (v: Vec<DiffChange>)
    ensures
        changes_view(v@) == line_diff_of(a@, b@),
{
    let diff = similar::TextDiff::from_lines(a, b);
    let mut out: Vec<DiffChange> = Vec::new();
    for c in diff.iter_all_changes() {
        let kind = match c.tag() {
            similar::ChangeTag::Delete => ChangeKind::Delete,
            similar::ChangeTag::Insert => ChangeKind::Insert,
            similar::ChangeTag::Equal => ChangeKind::Equal,
        };
        out.push(DiffChange { kind, text: c.value().chars().collect() });
    }
    out
}

/// Relies on `similar::TextDiff::from_chars` and `iter_all_changes`:
/// the change list is a pure function of the two texts; the spans marked
/// `Equal` occur in both texts, so their total length is at most either
/// text's length; and on two equal texts the Myers diff emits a single
/// `Equal` run covering everything.
#[verifier::external_body]
fn char_changes(a: &str, b: &str) -> (v: Vec<DiffChange>)
    ensures
        changes_view(v@) == char_diff_of(a@, b@),
        equal_total(changes_view(v@)) <= a@.len(),
        equal_total(changes_view(v@)) <= b@.len(),
        a@ == b@ ==> equal_total(changes_view(v@)) == a@.len(),
{
    let diff = similar::TextDiff::from_chars(a, b);
    let mut out: Vec<DiffChange> = Vec::new();
    for c in diff.iter_all_changes() {
        let kind = match c.tag() {
            similar::ChangeTag::Delete => ChangeKind::Delete,
            similar::ChangeTag::Insert => ChangeKind::Insert,
            similar::ChangeTag::Equal => ChangeKind::Equal,
        };
        out.push(DiffChange { kind, text: c.value().chars().collect() });
    }
    out
}

/// Relies on `String`'s `FromIterator` impl: collecting characters
/// yields the string of exactly those characters, in order.
#[verifier::external_body]
pub(crate) fn chars_to_string(v: &Vec<char>) -> (s: String)
    ensures
        s@ == v@,
{
    v.iter().collect()
}

/// One step of `kind_concat` along a prefix.
proof fn lemma_kind_concat_step(cs: Seq<(ChangeKind, Seq<char>)>, k: ChangeKind, i: int)
    requires
        0 <= i < cs.len(),
    ensures
        kind_concat(cs.take(i + 1), k) == kind_concat(cs.take(i), k) + if cs[i].0 == k {
            cs[i].1
        } else {
            Seq::<char>::empty()
        },
{
    assert(cs.take(i + 1).drop_last() =~= cs.take(i));
    assert(cs.take(i + 1).last() == cs[i]);
}

/// One step of `equal_total` along a prefix.
proof fn lemma_equal_total_step(cs: Seq<(ChangeKind, Seq<char>)>, i: int)
    requires
        0 <= i < cs.len(),
    ensures
        equal_total(cs.take(i + 1)) == equal_total(cs.take(i)) + if cs[i].0 == ChangeKind::Equal {
            cs[i].1.len()
        } else {
            0
        },
{
    assert(cs.take(i + 1).drop_last() =~= cs.take(i));
    assert(cs.take(i + 1).last() == cs[i]);
}

/// A prefix never counts more `Equal` characters than the whole list.
proof fn lemma_equal_total_take(cs: Seq<(ChangeKind, Seq<char>)>, i: int)
    requires
        0 <= i <= cs.len(),
    ensures
        equal_total(cs.take(i)) <= equal_total(cs),
    decreases cs.len() - i,
{
    if i == cs.len() {
        assert(cs.take(i) =~= cs);
    } else {
        lemma_equal_total_take(cs, i + 1);
        lemma_equal_total_step(cs, i);
    }
}

/// The number of characters the character diff of `a` and `b` marks
/// `Equal`, counted from a change list.
pub fn count_equal_chars(changes: &Vec<DiffChange>) -> (n: usize)
    requires
        equal_total(changes_view(changes@)) <= usize::MAX,
    ensures
        n == equal_total(changes_view(changes@)),
{
    let ghost cs: Seq<(ChangeKind, Seq<char>)> = changes_view(changes@);
    let mut n: usize = 0;
    let mut i: usize = 0;
    proof {
        assert(cs.take(0) =~= Seq::<(ChangeKind, Seq<char>)>::empty());
    }
    while i < changes.len()
        invariant
            i <= changes.len(),
            cs == changes_view(changes@),
            equal_total(cs) <= usize::MAX,
            n == equal_total(cs.take(i as int)),
        decreases changes.len() - i,
    {
        proof {
            lemma_equal_total_step(cs, i as int);
            lemma_equal_total_take(cs, i + 1);
        }
        if changes[i].kind == ChangeKind::Equal {
            n = n + changes[i].text.len();
        }
        i += 1;
    }
    proof {
        assert(cs.take(changes@.len() as int) =~= cs);
    }
    n
}

/// The characters of `a` and `b` that the character diff marks `Equal`,
/// with its bounds.
pub fn common_characters(a: &Vec<char>, b: &Vec<char>) -> (n: usize)
    ensures
        n == char_common(a@, b@),
        n <= a@.len(),
        n <= b@.len(),
        a@ == b@ ==> n == a@.len(),
{
    let sa = chars_to_string(a);
    let sb = chars_to_string(b);
    let changes = char_changes(sa.as_str(), sb.as_str());
    proof {
        assert(spec_vec_len(a) == a@.len()) by {
            broadcast use vstd::std_specs::vec::axiom_spec_len;

        }
    }
    count_equal_chars(&changes)
}

/// A similarity score as an exact ratio. Its value is
/// `numerator / denominator`, with `0 / 0` read as zero.
#[derive(Debug, Clone, Copy, PartialEq, Eq, Structural)]
pub struct Similarity {
    /// How much matched.
    pub numerator: usize,
    /// The size of what was compared against.
    pub denominator: usize,
}

impl Similarity {
    /// The score lies in the unit interval.
    pub open spec fn in_unit(self) -> bool {
        self.numerator <= self.denominator
    }

    /// The score is exactly one.
    pub open spec fn is_one(self) -> bool {
        self.numerator == self.denominator && self.denominator > 0
    }

    /// The score is exactly zero.
    pub open spec fn is_zero(self) -> bool {
        self.numerator == 0
    }
}

/// Character-granularity similarity of two texts: the number of
/// characters their diff keeps, over the length of the longer text.
/// The result lies in `[0, 1]`, and equal non-empty texts score one.
pub fn unchanged_percentage(text_a: &String, text_b: &String) -> (r: Similarity)
    ensures
        r.numerator == char_common(text_a@, text_b@),
        r.denominator == if text_a@.len() >= text_b@.len() {
            text_a@.len()
        } else {
            text_b@.len()
        },
        r.in_unit(),
        text_a@ == text_b@ && text_a@.len() > 0 ==> r.is_one(),
        text_a@.len() == 0 && text_b@.len() == 0 ==> r.is_zero(),
{
    let va = crate::text::str_chars(text_a.as_str());
    let vb = crate::text::str_chars(text_b.as_str());
    let common = common_characters(&va, &vb);
    let largest: usize = if va.len() >= vb.len() {
        va.len()
    } else {
        vb.len()
    };
    Similarity { numerator: common, denominator: largest }
}

/// Line-granularity diff of two texts: the concatenation of all inserted
/// lines and of all deleted lines, each with carriage returns removed.
pub fn get_add_del_from_texts(text_a: &String, text_b: &String) -> (r: (String, String))
    ensures
        r.0@ == strip_cr(kind_concat(line_diff_of(text_a@, text_b@), ChangeKind::Insert)),
        r.1@ == strip_cr(kind_concat(line_diff_of(text_a@, text_b@), ChangeKind::Delete)),
{
    let changes = line_changes(text_a.as_str(), text_b.as_str());
    let ghost cs: Seq<(ChangeKind, Seq<char>)> = changes_view(changes@);
    let mut added: Vec<char> = Vec::new();
    let mut removed: Vec<char> = Vec::new();
    let mut i: usize = 0;
    proof {
        assert(cs.take(0) =~= Seq::<(ChangeKind, Seq<char>)>::empty());
    }
    while i < changes.len()
        invariant
            i <= changes.len(),
            cs == changes_view(changes@),
            added@ == kind_concat(cs.take(i as int), ChangeKind::Insert),
            removed@ == kind_concat(cs.take(i as int), ChangeKind::Delete),
        decreases changes.len() - i,
    {
        proof {
            lemma_kind_concat_step(cs, ChangeKind::Insert, i as int);
            lemma_kind_concat_step(cs, ChangeKind::Delete, i as int);
        }
        match changes[i].kind {
            ChangeKind::Insert => {
                crate::text::push_tail(&mut added, &changes[i].text, 0);
            },
            ChangeKind::Delete => {
                crate::text::push_tail(&mut removed, &changes[i].text, 0);
            },
            ChangeKind::Equal => {},
        }
        proof {
            assert(changes[i as int].text@.skip(0) =~= changes[i as int].text@);
            assert(added@ =~= kind_concat(cs.take(i + 1), ChangeKind::Insert));
            assert(removed@ =~= kind_concat(cs.take(i + 1), ChangeKind::Delete));
        }
        i += 1;
    }
    proof {
        assert(cs.take(changes@.len() as int) =~= cs);
    }
    let added_clean = crate::text::strip_cr_vec(&added);
    let removed_clean = crate::text::strip_cr_vec(&removed);
    (chars_to_string(&added_clean), chars_to_string(&removed_clean))
}

} // verus!
