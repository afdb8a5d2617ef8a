//! Approximate completion-survival score. When exact single-block
//! attribution is not wanted, the inserted lines between two file states
//! are greedily aligned against the lines of the original suggestion:
//! each suggestion line consumes, once, the not-yet-matched inserted
//! line with the most characters in common, and the matched character
//! total is taken over the suggestion's length without line breaks.
//! A deliberate simplification: greedy first-best alignment, not a
//! maximum-weight matching.

use vstd::prelude::*;
use crate::diff::{ChangeKind, Similarity, char_common, kind_concat, line_diff_of};
use crate::text::{split_lines, strip_cr};

verus! {

/// Total length of a sequence of lines.
pub open spec fn sum_len(ls: Seq<Seq<char>>) -> nat
    decreases ls.len(),
{
    if ls.len() == 0 {
        0
    } else {
        ls.first().len() + sum_len(ls.drop_first())
    }
}

/// The number of characters of `s` that are neither line feeds nor
/// carriage returns.
pub open spec fn solid_len(s: Seq<char>) -> nat
    decreases s.len(),
{
    if s.len() == 0 {
        0
    } else {
        solid_len(s.drop_last()) + if s.last() == '\n' || s.last() == '\r' {
            0nat
        } else {
            1nat
        }
    }
}

/// Scan the inserted lines from position `j` for the best match against
/// the suggestion line `g`, carrying the best seen so far: its score,
/// its index, and whether any line scored above zero. Already-consumed
/// lines never match. The first line reaching the maximum wins.
pub open spec fn scan_best(
    lines: Seq<Seq<char>>,
    taken: Set<int>,
    g: Seq<char>,
    j: int,
    cur_val: nat,
    cur_idx: int,
    cur_valid: bool,
) -> (nat, int, bool)
    decreases lines.len() - j,
{
    if j < 0 || j >= lines.len() {
        (cur_val, cur_idx, cur_valid)
    } else {
        let c: nat = if taken.contains(j) {
            0
        } else {
            char_common(lines[j], g)
        };
        if c > cur_val {
            scan_best(lines, taken, g, j + 1, c, j, true)
        } else {
            scan_best(lines, taken, g, j + 1, cur_val, cur_idx, cur_valid)
        }
    }
}

/// The greedy alignment total: each suggestion line in order consumes
/// its best-matching inserted line, if any line matches at all.
pub open spec fn greedy_sum(added: Seq<Seq<char>>, greys: Seq<Seq<char>>, taken: Set<int>) -> nat
    decreases greys.len(),
{
    if greys.len() == 0 {
        0
    } else {
        let best = scan_best(added, taken, greys.first(), 0, 0, 0, false);
        if best.2 {
            best.0 + greedy_sum(added, greys.drop_first(), taken.insert(best.1))
        } else {
            greedy_sum(added, greys.drop_first(), taken)
        }
    }
}

/// The approximate similarity between the text inserted from `a` to `b`
/// and the suggestion `grey`, as a ratio: the greedy alignment total
/// over the suggestion's length without line breaks. Zero when nothing
/// was inserted.
pub open spec fn approx_score(a: Seq<char>, b: Seq<char>, grey: Seq<char>) -> (nat, nat) {
    let added = strip_cr(kind_concat(line_diff_of(a, b), ChangeKind::Insert));
    if added.len() == 0 {
        (0, 1)
    } else {
        (greedy_sum(split_lines(added), split_lines(grey), Set::empty()), solid_len(grey))
    }
}

/// Splitting a text into lines never increases its total length.
proof fn lemma_split_lines_total(s: Seq<char>)
    ensures
        sum_len(split_lines(s)) <= s.len(),
    decreases s.len(),
{
    if s.len() == 0 {
    } else {
        let i = crate::text::find_newline(s);
        crate::text::lemma_find_newline(s);
        if 0 <= i < s.len() {
            lemma_split_lines_total(s.skip(i + 1));
            let rest = split_lines(s.skip(i + 1));
            assert((seq![crate::text::chomp_cr(s.take(i))] + rest).drop_first() =~= rest);
            assert((seq![crate::text::chomp_cr(s.take(i))] + rest).first() == crate::text::chomp_cr(
                s.take(i),
            ));
        } else {
            assert(seq![s].drop_first() =~= Seq::<Seq<char>>::empty());
            assert(seq![s].first() == s);
            assert(sum_len(Seq::<Seq<char>>::empty()) == 0);
            assert(sum_len(seq![s]) == s.len());
        }
    }
}

/// One step of `solid_len` along a prefix.
proof fn lemma_solid_len_step(s: Seq<char>, i: int)
    requires
        0 <= i < s.len(),
    ensures
        solid_len(s.take(i + 1)) == solid_len(s.take(i)) + if s[i] == '\n' || s[i] == '\r' {
            0nat
        } else {
            1nat
        },
{
    assert(s.take(i + 1).drop_last() =~= s.take(i));
    assert(s.take(i + 1).last() == s[i]);
}

/// The number of characters of `v` that are neither line feeds nor
/// carriage returns.
fn count_solid(v: &Vec<char>) -> (n: usize)
    ensures
        n == solid_len(v@),
{
    let mut n: usize = 0;
    let mut i: usize = 0;
    proof {
        assert(v@.take(0) =~= Seq::<char>::empty());
    }
    while i < v.len()
        invariant
            i <= v.len(),
            n <= i,
            n == solid_len(v@.take(i as int)),
        decreases v.len() - i,
    {
        proof {
            lemma_solid_len_step(v@, i as int);
        }
        if v[i] != '\n' && v[i] != '\r' {
            n += 1;
        }
        i += 1;
    }
    proof {
        assert(v@.take(v@.len() as int) =~= v@);
    }
    n
}

/// The approximate similarity between the completion text the user kept
/// and the originally suggested text: inserted lines are greedily
/// aligned against suggestion lines, and the matched character total is
/// taken over the suggestion's length without line breaks.
#[verifier::rlimit(80)]
pub fn unchanged_percentage_approx(
    text_a: &String,
    text_b: &String,
    grey_text_a: &String,
) -> (r: Similarity)
    ensures
        r.numerator == approx_score(text_a@, text_b@, grey_text_a@).0,
        r.denominator == approx_score(text_a@, text_b@, grey_text_a@).1,
{
    let (added_s, _removed) = crate::diff::get_add_del_from_texts(text_a, text_b);
    let added = crate::text::str_chars(added_s.as_str());
    if added.len() == 0 {
        return Similarity { numerator: 0, denominator: 1 };
    }
    let added_lines = crate::text::split_lines_vec(&added);
    let grey = crate::text::str_chars(grey_text_a.as_str());
    let grey_lines = crate::text::split_lines_vec(&grey);
    let ghost av: Seq<Seq<char>> = added_lines.deep_view();
    let ghost gv: Seq<Seq<char>> = grey_lines.deep_view();
    proof {
        lemma_split_lines_total(grey@);
    }
    let mut taken: Vec<bool> = Vec::new();
    let mut k: usize = 0;
    while k < added_lines.len()
        invariant
            taken@.len() == k <= added_lines@.len(),
            forall|j: int| 0 <= j < k ==> !taken@[j],
        decreases added_lines.len() - k,
    {
        taken.push(false);
        k += 1;
    }
    let ghost tset0: Set<int> = Set::empty();
    let ghost mut tset: Set<int> = tset0;
    let mut acc: usize = 0;
    let mut gi: usize = 0;
    proof {
        assert(gv.skip(0) =~= gv);
        assert(sum_len(gv.skip(0)) == sum_len(gv));
        assert(vstd::std_specs::vec::spec_vec_len(&grey) == grey@.len()) by {
            broadcast use vstd::std_specs::vec::axiom_spec_len;

        }
    }
    while gi < grey_lines.len()
        invariant
            gi <= grey_lines@.len(),
            taken@.len() == added_lines@.len(),
            av == added_lines.deep_view(),
            gv == grey_lines.deep_view(),
            forall|j: int| 0 <= j < taken@.len() ==> taken@[j] == tset.contains(j),
            greedy_sum(av, gv, Set::empty()) == acc + greedy_sum(av, gv.skip(gi as int), tset),
            acc + sum_len(gv.skip(gi as int)) <= sum_len(gv),
            sum_len(gv) <= grey@.len(),
            grey@.len() <= usize::MAX,
        decreases grey_lines.len() - gi,
    {
        let g = &grey_lines[gi];
        let ghost rem: Seq<Seq<char>> = gv.skip(gi as int);
        let ghost tset_before: Set<int> = tset;
        proof {
            assert(g.deep_view() =~= g@);
            assert(rem.first() == gv[gi as int]);
            assert(gv[gi as int] == grey_lines@[gi as int].deep_view());
            assert(rem.drop_first() =~= gv.skip(gi + 1));
        }
        let mut best_val: usize = 0;
        let mut best_idx: usize = 0;
        let mut best_valid: bool = false;
        let mut j: usize = 0;
        while j < added_lines.len()
            invariant
                j <= added_lines@.len(),
                taken@.len() == added_lines@.len(),
                av == added_lines.deep_view(),
                tset == tset_before,
                forall|jj: int| 0 <= jj < taken@.len() ==> taken@[jj] == tset.contains(jj),
                best_val <= g@.len(),
                best_valid ==> best_idx < added_lines@.len(),
                scan_best(av, tset, g@, j as int, best_val as nat, best_idx as int, best_valid)
                    == scan_best(av, tset, g@, 0, 0, 0, false),
            decreases added_lines.len() - j,
        {
            let ghost obv: nat = best_val as nat;
            let ghost obi: int = best_idx as int;
            let ghost obvalid: bool = best_valid;
            proof {
                assert(av[j as int] =~= added_lines@[j as int].deep_view());
            }
            if !taken[j] {
                let c = crate::diff::common_characters(&added_lines[j], g);
                proof {
                    assert(added_lines@[j as int]@ =~= av[j as int]);
                }
                if c > best_val {
                    best_val = c;
                    best_idx = j;
                    best_valid = true;
                }
            }
            proof {
                let cj: nat = if tset.contains(j as int) {
                    0
                } else {
                    char_common(av[j as int], g@)
                };
                assert(scan_best(av, tset, g@, j as int, obv, obi, obvalid) == if cj > obv {
                    scan_best(av, tset, g@, j + 1, cj, j as int, true)
                } else {
                    scan_best(av, tset, g@, j + 1, obv, obi, obvalid)
                });
                assert(scan_best(av, tset, g@, j + 1, best_val as nat, best_idx as int, best_valid)
                    == scan_best(av, tset, g@, 0, 0, 0, false));
            }
            j += 1;
        }
        proof {
            assert(scan_best(av, tset, g@, av.len() as int, best_val as nat, best_idx as int,
                best_valid) == (best_val as nat, best_idx as int, best_valid));
            assert(scan_best(av, tset_before, g@, 0, 0, 0, false) == (
                best_val as nat,
                best_idx as int,
                best_valid,
            ));
            assert(rem.len() > 0);
            assert(rem.first() == g@);
            assert(greedy_sum(av, rem, tset_before) == if best_valid {
                best_val as nat + greedy_sum(
                    av,
                    rem.drop_first(),
                    tset_before.insert(best_idx as int),
                )
            } else {
                greedy_sum(av, rem.drop_first(), tset_before)
            });
            assert(sum_len(rem) == rem.first().len() + sum_len(rem.drop_first()));
            assert(sum_len(gv.skip(gi as int)) == g@.len() + sum_len(gv.skip(gi + 1)));
        }
        if best_valid {
            proof {
                assert(acc + best_val + sum_len(gv.skip(gi + 1)) <= sum_len(gv));
                assert(sum_len(gv) <= usize::MAX);
            }
            taken.set(best_idx, true);
            proof {
                tset = tset.insert(best_idx as int);
            }
            acc = acc + best_val;
        }
        gi += 1;
        proof {
            assert(greedy_sum(av, gv, Set::empty()) == acc + greedy_sum(
                av,
                gv.skip(gi as int),
                tset,
            ));
        }
    }
    proof {
        assert(gv.skip(gv.len() as int) =~= Seq::<Seq<char>>::empty());
    }
    let den = count_solid(&grey);
    proof {
        assert(added@ == strip_cr(kind_concat(line_diff_of(text_a@, text_b@), ChangeKind::Insert)));
    }
    Similarity { numerator: acc, denominator: den }
}

} // verus!
