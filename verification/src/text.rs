//! Verified character-sequence primitives used by the diff and
//! classification logic: whitespace tests, carriage-return stripping,
//! prefix/suffix tests, and splitting text into lines.

use vstd::prelude::*;
use vstd::string::StrSliceExecFns;

verus! {

/// A character with the Unicode `White_Space` property, the set that
/// both `char::is_whitespace` and the usual `\s` character class match.
pub open spec fn is_space_char(c: char) -> bool {
    let u = c as u32;
    u == 0x20 || u == 0x09 || u == 0x0A || u == 0x0B || u == 0x0C || u == 0x0D || u == 0x85
        || u == 0xA0 || u == 0x1680 || (0x2000 <= u && u <= 0x200A) || u == 0x2028 || u == 0x2029
        || u == 0x202F || u == 0x205F || u == 0x3000
}

/// Every character of `s` is whitespace; true of the empty sequence.
pub open spec fn ws_only(s: Seq<char>) -> bool {
    forall|i: int| 0 <= i < s.len() ==> is_space_char(s[i])
}

/// `s` with every carriage return removed.
pub open spec fn strip_cr(s: Seq<char>) -> Seq<char>
    decreases s.len(),
{
    if s.len() == 0 {
        Seq::empty()
    } else if s.last() == '\r' {
        strip_cr(s.drop_last())
    } else {
        strip_cr(s.drop_last()).push(s.last())
    }
}

/// `s` ends with a line feed.
pub open spec fn ends_with_newline(s: Seq<char>) -> bool {
    s.len() > 0 && s.last() == '\n'
}

/// `s` with one trailing line feed removed, if it has one.
pub open spec fn chomp_newline(s: Seq<char>) -> Seq<char> {
    if ends_with_newline(s) {
        s.drop_last()
    } else {
        s
    }
}

/// `s` with one trailing carriage return removed, if it has one.
pub open spec fn chomp_cr(s: Seq<char>) -> Seq<char> {
    if s.len() > 0 && s.last() == '\r' {
        s.drop_last()
    } else {
        s
    }
}

/// `p` is a prefix of `s`.
pub open spec fn is_prefix(p: Seq<char>, s: Seq<char>) -> bool {
    p.len() <= s.len() && s.take(p.len() as int) == p
}

/// `t` is a suffix of `s`.
pub open spec fn is_suffix(t: Seq<char>, s: Seq<char>) -> bool {
    t.len() <= s.len() && s.skip(s.len() - t.len()) == t
}

/// `s` contains at least one line feed.
pub open spec fn has_newline(s: Seq<char>) -> bool {
    exists|i: int| 0 <= i < s.len() && s[i] == '\n'
}

/// Index of the first line feed of `s`, or -1 if there is none.
pub open spec fn find_newline(s: Seq<char>) -> int
    decreases s.len(),
{
    if s.len() == 0 {
        -1
    } else if s[0] == '\n' {
        0
    } else {
        let r = find_newline(s.skip(1));
        if r < 0 {
            -1
        } else {
            r + 1
        }
    }
}

/// The lines of `s`, as `str::lines` yields them: split at each line
/// feed, with a carriage return directly before the line feed removed,
/// and no empty final line after a trailing line feed.
pub open spec fn split_lines(s: Seq<char>) -> Seq<Seq<char>>
    decreases s.len(),
{
    if s.len() == 0 {
        Seq::empty()
    } else {
        let i = find_newline(s);
        if 0 <= i < s.len() {
            seq![chomp_cr(s.take(i))] + split_lines(s.skip(i + 1))
        } else {
            seq![s]
        }
    }
}

/// The find result is a line feed position, and nothing before it is one.
pub proof fn lemma_find_newline(s: Seq<char>)
    ensures
        find_newline(s) >= 0 ==> find_newline(s) < s.len() && s[find_newline(s)] == '\n',
        find_newline(s) >= 0 ==> forall|j: int| 0 <= j < find_newline(s) ==> s[j] != '\n',
        find_newline(s) < 0 ==> forall|j: int| 0 <= j < s.len() ==> s[j] != '\n',
    decreases s.len(),
{
    if s.len() == 0 {
    } else if s[0] == '\n' {
    } else {
        lemma_find_newline(s.skip(1));
        assert forall|j: int| 1 <= j < s.len() implies s[j] == s.skip(1)[j - 1] by {}
    }
}

/// Whether the character is Unicode whitespace.
pub fn is_space(c: char) -> (r: bool)
    ensures
        r == is_space_char(c),
{
    let u = c as u32;
    u == 0x20 || u == 0x09 || u == 0x0A || u == 0x0B || u == 0x0C || u == 0x0D || u == 0x85
        || u == 0xA0 || u == 0x1680 || (0x2000 <= u && u <= 0x200A) || u == 0x2028 || u == 0x2029
        || u == 0x202F || u == 0x205F || u == 0x3000
}

/// Whether every character of `v` is whitespace.
pub fn is_ws_only(v: &Vec<char>) -> (r: bool)
    ensures
        r == ws_only(v@),
{
    let mut i: usize = 0;
    while i < v.len()
        invariant
            i <= v.len(),
            forall|j: int| 0 <= j < i ==> is_space_char(v@[j]),
        decreases v.len() - i,
    {
        if !is_space(v[i]) {
            return false;
        }
        i += 1;
    }
    true
}

/// A copy of `v` with every carriage return removed.
pub fn strip_cr_vec(v: &Vec<char>) -> (r: Vec<char>)
    ensures
        r@ == strip_cr(v@),
{
    let mut out: Vec<char> = Vec::new();
    let mut i: usize = 0;
    while i < v.len()
        invariant
            i <= v.len(),
            out@ == strip_cr(v@.take(i as int)),
        decreases v.len() - i,
    {
        proof {
            assert(v@.take(i + 1).drop_last() == v@.take(i as int));
            assert(v@.take(i + 1).last() == v@[i as int]);
        }
        if v[i] != '\r' {
            out.push(v[i]);
        }
        i += 1;
    }
    proof {
        assert(v@.take(v@.len() as int) == v@);
    }
    out
}

/// Whether `p` is a prefix of `s`.
pub fn starts_with(s: &Vec<char>, p: &Vec<char>) -> (r: bool)
    ensures
        r == is_prefix(p@, s@),
{
    if p.len() > s.len() {
        proof {
            assert(!is_prefix(p@, s@));
        }
        return false;
    }
    let mut i: usize = 0;
    while i < p.len()
        invariant
            i <= p.len() <= s.len(),
            forall|j: int| 0 <= j < i ==> s@[j] == p@[j],
        decreases p.len() - i,
    {
        if s[i] != p[i] {
            proof {
                assert(s@.take(p@.len() as int)[i as int] != p@[i as int]);
            }
            return false;
        }
        i += 1;
    }
    proof {
        assert(s@.take(p@.len() as int) =~= p@);
    }
    true
}

/// Whether `t` is a suffix of `s`.
pub fn ends_with(s: &Vec<char>, t: &Vec<char>) -> (r: bool)
    ensures
        r == is_suffix(t@, s@),
{
    if t.len() > s.len() {
        proof {
            assert(!is_suffix(t@, s@));
        }
        return false;
    }
    let off: usize = s.len() - t.len();
    let mut k: usize = off;
    while k < s.len()
        invariant
            off + t@.len() == s@.len(),
            off <= k <= s@.len(),
            forall|j: int| 0 <= j < k - off ==> s@[off + j] == t@[j],
        decreases s.len() - k,
    {
        if s[k] != t[k - off] {
            proof {
                assert(s@.skip(off as int)[k - off] != t@[k - off]);
            }
            return false;
        }
        k += 1;
    }
    proof {
        assert(s@.skip(off as int) =~= t@);
    }
    true
}

/// Whether `v` contains a line feed.
pub fn contains_newline(v: &Vec<char>) -> (r: bool)
    ensures
        r == has_newline(v@),
{
    let mut i: usize = 0;
    while i < v.len()
        invariant
            i <= v.len(),
            forall|j: int| 0 <= j < i ==> v@[j] != '\n',
        decreases v.len() - i,
    {
        if v[i] == '\n' {
            return true;
        }
        i += 1;
    }
    false
}

/// Append `src[from..]` to `dst`.
pub fn push_tail(dst: &mut Vec<char>, src: &Vec<char>, from: usize)
    requires
        from <= src@.len(),
    ensures
        final(dst)@ == old(dst)@ + src@.skip(from as int),
{
    let mut i: usize = from;
    while i < src.len()
        invariant
            from <= i <= src.len(),
            dst@ == old(dst)@ + src@.subrange(from as int, i as int),
        decreases src.len() - i,
    {
        proof {
            assert(src@.subrange(from as int, i + 1) == src@.subrange(from as int, i as int).push(
                src@[i as int],
            ));
        }
        dst.push(src[i]);
        i += 1;
    }
    proof {
        assert(src@.subrange(from as int, src@.len() as int) == src@.skip(from as int));
    }
}

/// The characters of `s`, in order.
pub fn str_chars(s: &str) -> (v: Vec<char>)
    ensures
        v@ == s@,
{
    let n = s.unicode_len();
    let mut v: Vec<char> = Vec::new();
    let mut i: usize = 0;
    while i < n
        invariant
            i <= n,
            n == s@.len(),
            v@ == s@.take(i as int),
        decreases n - i,
    {
        proof {
            assert(s@.take(i + 1) == s@.take(i as int).push(s@[i as int]));
        }
        v.push(s.get_char(i));
        i += 1;
    }
    proof {
        assert(s@.take(n as int) == s@);
    }
    v
}

/// The lines of `v`, as `str::lines` yields them.
#[verifier::rlimit(60)]
pub fn split_lines_vec(v: &Vec<char>) -> (r: Vec<Vec<char>>)
    ensures
        r.deep_view() == split_lines(v@),
{
    let ghost whole: Seq<char> = v@;
    let mut out: Vec<Vec<char>> = Vec::new();
    let mut pos: usize = 0;
    proof {
        assert(v@.skip(0) == v@);
        assert(out.deep_view() =~= Seq::<Seq<char>>::empty());
        assert(split_lines(whole) =~= out.deep_view() + split_lines(v@.skip(0)));
    }
    while pos < v.len()
        invariant
            pos <= v.len(),
            whole == v@,
            split_lines(whole) == out.deep_view() + split_lines(v@.skip(pos as int)),
        decreases v.len() - pos,
    {
        let ghost rest: Seq<char> = v@.skip(pos as int);
        let ghost out_prev: Seq<Seq<char>> = out.deep_view();
        // scan for the next line feed
        let mut j: usize = pos;
        while j < v.len() && v[j] != '\n'
            invariant
                pos <= j <= v.len(),
                forall|k: int| pos <= k < j ==> v@[k] != '\n',
            decreases v.len() - j,
        {
            j += 1;
        }
        proof {
            lemma_find_newline(rest);
            assert forall|k: int| 0 <= k < rest.len() implies rest[k] == v@[pos + k] by {}
            if j < v.len() {
                assert(rest[j - pos] == '\n');
                assert(find_newline(rest) == j - pos) by {
                    if find_newline(rest) < 0 {
                        assert(rest[j - pos] != '\n');
                    } else if find_newline(rest) < j - pos {
                        assert(v@[pos + find_newline(rest)] == '\n');
                    } else if find_newline(rest) > j - pos {
                        assert(rest[j - pos] != '\n');
                    }
                }
            } else {
                assert(find_newline(rest) < 0) by {
                    if find_newline(rest) >= 0 {
                        assert(v@[pos + find_newline(rest)] == '\n');
                    }
                }
            }
        }
        let mut line: Vec<char> = Vec::new();
        push_tail(&mut line, v, pos);
        let taken: usize = j - pos;
        line.truncate(taken);
        proof {
            assert(line@ =~= rest.take(j - pos));
        }
        if j < v.len() {
            if line.len() > 0 && line[line.len() - 1] == '\r' {
                line.pop();
            }
            proof {
                assert(line@ == chomp_cr(rest.take(j - pos)));
                assert(split_lines(rest) == seq![chomp_cr(rest.take(j - pos))] + split_lines(
                    rest.skip(j - pos + 1),
                ));
                assert(rest.skip(j - pos + 1) =~= v@.skip(j + 1));
            }
            let ghost line_view: Seq<char> = line@;
            out.push(line);
            proof {
                assert(out.deep_view() =~~= out_prev.push(line_view));
                assert(out_prev.push(line_view) + split_lines(v@.skip(j + 1)) =~= out_prev + (seq![
                    line_view,
                ] + split_lines(v@.skip(j + 1))));
                assert(split_lines(whole) == out.deep_view() + split_lines(v@.skip(j + 1)));
            }
            pos = j + 1;
        } else {
            proof {
                assert(rest.take(j - pos) =~= rest);
                assert(split_lines(rest) == seq![rest]);
            }
            let ghost line_view: Seq<char> = line@;
            out.push(line);
            proof {
                assert(out.deep_view() =~~= out_prev.push(line_view));
                assert(v@.skip(v@.len() as int) =~= Seq::<char>::empty());
                assert(split_lines(v@.skip(v@.len() as int)) == Seq::<Seq<char>>::empty());
                assert(out_prev.push(line_view) + Seq::<Seq<char>>::empty() =~= out_prev + seq![
                    line_view,
                ]);
                assert(split_lines(whole) == out.deep_view() + split_lines(
                    v@.skip(v@.len() as int),
                ));
            }
            pos = v.len();
        }
    }
    proof {
        assert(v@.skip(pos as int) =~= Seq::<char>::empty());
        assert(split_lines(v@.skip(pos as int)) == Seq::<Seq<char>>::empty());
        assert(out.deep_view() =~= split_lines(whole));
    }
    out
}

/// Index of the last occurrence of `c` in `s`, or -1 if there is none.
pub open spec fn find_last(s: Seq<char>, c: char) -> int
    decreases s.len(),
{
    if s.len() == 0 {
        -1
    } else if s.last() == c {
        s.len() - 1
    } else {
        find_last(s.drop_last(), c)
    }
}

/// The last path component of a uri: everything after its last slash,
/// or the whole uri when it has none.
pub open spec fn last_component(uri: Seq<char>) -> Seq<char> {
    uri.skip(find_last(uri, '/') + 1)
}

/// The extension of the uri's last component, dot included, or the
/// whole component when it has no dot.
pub open spec fn extension_or_name(uri: Seq<char>) -> Seq<char> {
    let part = last_component(uri);
    let d = find_last(part, '.');
    if d >= 0 {
        part.skip(d)
    } else {
        part
    }
}

/// When no occurrence lies at or beyond position `i`, the last
/// occurrence lies within the prefix.
proof fn lemma_find_last_prefix(s: Seq<char>, c: char, i: int)
    requires
        0 <= i <= s.len(),
        forall|k: int| i <= k < s.len() ==> s[k] != c,
    ensures
        find_last(s, c) == find_last(s.take(i), c),
    decreases s.len() - i,
{
    if i == s.len() {
        assert(s.take(i) =~= s);
    } else {
        lemma_find_last_prefix(s, c, i + 1);
        assert(s.take(i + 1).last() == s[i]);
        assert(s.take(i + 1).drop_last() =~= s.take(i));
    }
}

/// Position of the last occurrence of `c` in `v`, if any.
fn find_last_pos(v: &Vec<char>, c: char) -> (r: Option<usize>)
    ensures
        match r {
            Some(i) => i < v@.len() && find_last(v@, c) == i,
            None => find_last(v@, c) == -1,
        },
{
    let mut i: usize = v.len();
    while i > 0
        invariant
            i <= v@.len(),
            forall|k: int| i <= k < v@.len() ==> v@[k] != c,
        decreases i,
    {
        if v[i - 1] == c {
            proof {
                lemma_find_last_prefix(v@, c, i as int);
                assert(v@.take(i as int).last() == v@[i - 1]);
            }
            return Some(i - 1);
        }
        i -= 1;
    }
    proof {
        lemma_find_last_prefix(v@, c, 0);
        assert(v@.take(0) =~= Seq::<char>::empty());
    }
    None
}

/// The file extension of a uri's last path component, dot included, or
/// the whole component when it has no extension: a coarse label for
/// grouping telemetry by file kind.
pub fn extract_extension_or_filename(uri: &str) -> (r: String)
    ensures
        r@ == extension_or_name(uri@),
{
    let v = str_chars(uri);
    proof {
        assert(vstd::std_specs::vec::spec_vec_len(&v) == v@.len()) by {
            broadcast use vstd::std_specs::vec::axiom_spec_len;

        }
    }
    let start: usize = match find_last_pos(&v, '/') {
        Some(i) => i + 1,
        None => 0,
    };
    let mut part: Vec<char> = Vec::new();
    push_tail(&mut part, &v, start);
    proof {
        assert(part@ == last_component(uri@));
    }
    let from: usize = match find_last_pos(&part, '.') {
        Some(d) => d,
        None => 0,
    };
    let mut out: Vec<char> = Vec::new();
    push_tail(&mut out, &part, from);
    proof {
        if find_last(part@, '.') < 0 {
            assert(part@.skip(0) =~= part@);
        }
        assert(out@ == extension_or_name(uri@));
    }
    crate::diff::chars_to_string(&out)
}

} // verus!
