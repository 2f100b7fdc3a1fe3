//! Validation of the configured mailbox path.
use vstd::prelude::*;
use vstd::string::*;

verus! {

/// Why a configured mailbox path was refused.
#[derive(Debug, Clone, Copy, PartialEq, Eq, Structural)]
pub enum PathError {
    /// The path does not start at the root directory.
    PathNotAbsolute,
    /// The last component is not `new`, or there is none.
    MissingNewComponent,
    /// The component before `new` is not `Maildir`.
    MissingMailboxMarker,
}

pub open spec fn is_absolute(s: Seq<char>) -> bool {
    s.len() > 0 && s[0] == '/'
}

/// The pieces of `s` between slashes, empty ones included.
pub open spec fn segments(s: Seq<char>) -> Seq<Seq<char>>
    decreases s.len(),
{
    if s.len() == 0 {
        seq![seq![]]
    } else {
        let p = segments(s.drop_last());
        if s.last() == '/' {
            p.push(seq![])
        } else {
            p.update(p.len() - 1, p.last().push(s.last()))
        }
    }
}

/// A piece that names a directory: neither empty nor `.`.
pub open spec fn is_named(seg: Seq<char>) -> bool {
    seg.len() > 0 && seg != seq!['.']
}

/// The named pieces, in order.
pub open spec fn named(segs: Seq<Seq<char>>) -> Seq<Seq<char>>
    decreases segs.len(),
{
    if segs.len() == 0 {
        seq![]
    } else if is_named(segs.last()) {
        named(segs.drop_last()).push(segs.last())
    } else {
        named(segs.drop_last())
    }
}

/// The components of path `s` below the root: `/a//b/./c/` has `a`, `b`
/// and `c`.
pub open spec fn components(s: Seq<char>) -> Seq<Seq<char>> {
    named(segments(s))
}

/// The components joined by single slashes.
pub open spec fn join(cs: Seq<Seq<char>>) -> Seq<char>
    decreases cs.len(),
{
    if cs.len() == 0 {
        seq![]
    } else if cs.len() == 1 {
        cs[0]
    } else {
        join(cs.drop_last()) + seq!['/'] + cs.last()
    }
}

/// The absolute path made of the components `cs`.
pub open spec fn absolute_path(cs: Seq<Seq<char>>) -> Seq<char> {
    seq!['/'] + join(cs)
}

pub open spec fn new_marker() -> Seq<char> {
    "new"@
}

pub open spec fn mailbox_marker() -> Seq<char> {
    "Maildir"@
}

/// The outcome of validating a mailbox `new` path: the mailbox root on
/// success.
pub open spec fn mailbox_root_of(s: Seq<char>) -> Result<Seq<char>, PathError> {
    let cs = components(s);
    if !is_absolute(s) {
        Err(PathError::PathNotAbsolute)
    } else if cs.len() == 0 || cs.last() != new_marker() {
        Err(PathError::MissingNewComponent)
    } else if cs.len() < 2 || cs[cs.len() - 2] != mailbox_marker() {
        Err(PathError::MissingMailboxMarker)
    } else {
        Ok(absolute_path(cs.drop_last()))
    }
}

proof fn lemma_segments_nonempty(s: Seq<char>)
    ensures
        segments(s).len() >= 1,
    decreases s.len(),
{
    if s.len() > 0 {
        lemma_segments_nonempty(s.drop_last());
    }
}

proof fn lemma_named_push(segs: Seq<Seq<char>>, seg: Seq<char>)
    ensures
        named(segs.push(seg)) == if is_named(seg) {
            named(segs).push(seg)
        } else {
            named(segs)
        },
{
    assert(segs.push(seg).drop_last() =~= segs);
}

proof fn lemma_long_is_named(seg: Seq<char>)
    requires
        seg.len() > 1,
    ensures
        is_named(seg),
{
    assert(seq!['.'].len() == 1);
}

proof fn lemma_dot(seg: Seq<char>)
    requires
        seg.len() == 1,
    ensures
        (seg == seq!['.']) == (seg[0] == '.'),
        is_named(seg) == (seg[0] != '.'),
{
    if seg[0] == '.' {
        assert(seg =~= seq!['.']);
    } else {
        assert(seq!['.'][0] == '.');
    }
}

/// Whether the characters `a..b` of `p` spell `lit`.
pub fn spells(p: &str, a: usize, b: usize, lit: &str) -> (r: bool)
    requires
        a <= b <= p@.len(),
    ensures
        r == (p@.subrange(a as int, b as int) == lit@),
{
    let n = lit.unicode_len();
    if b - a != n {
        return false;
    }
    let mut i: usize = 0;
    while i < n
        invariant
            a <= b <= p@.len(),
            b - a == lit@.len(),
            n == lit@.len(),
            i <= lit@.len(),
            forall|k: int| 0 <= k < i ==> p@[a + k] == lit@[k],
        decreases lit@.len() - i,
    {
        if p.get_char(a + i) != lit.get_char(i) {
            assert(p@.subrange(a as int, b as int)[i as int] != lit@[i as int]);
            return false;
        }
        i = i + 1;
    }
    assert(p@.subrange(a as int, b as int) =~= lit@);
    true
}

/// `rs` marks, as ranges of `s`, exactly the pieces `cs`.
pub open spec fn spans(s: Seq<char>, rs: Seq<(usize, usize)>, cs: Seq<Seq<char>>) -> bool {
    rs.len() == cs.len() && forall|k: int|
        0 <= k < rs.len() ==> rs[k].0 <= rs[k].1 <= s.len() && s.subrange(
            #[trigger] rs[k].0 as int,
            rs[k].1 as int,
        ) == cs[k]
}

proof fn lemma_spans_push(s: Seq<char>, rs: Seq<(usize, usize)>, cs: Seq<Seq<char>>, a: usize, b: usize)
    requires
        spans(s, rs, cs),
        a <= b <= s.len(),
    ensures
        spans(s, rs.push((a, b)), cs.push(s.subrange(a as int, b as int))),
{
    let rs2 = rs.push((a, b));
    let cs2 = cs.push(s.subrange(a as int, b as int));
    assert forall|k: int| 0 <= k < rs2.len() implies rs2[k].0 <= rs2[k].1 <= s.len() && s.subrange(
        #[trigger] rs2[k].0 as int,
        rs2[k].1 as int,
    ) == cs2[k] by {
        if k < rs.len() {
            assert(rs2[k] == rs[k]);
            assert(cs2[k] == cs[k]);
            assert(s.subrange(rs[k].0 as int, rs[k].1 as int) == cs[k]);
        }
    }
}

/// The components of `p`, as ranges of its characters.
pub fn component_ranges(p: &str) -> (ranges: Vec<(usize, usize)>)
    ensures
        spans(p@, ranges@, components(p@)),
{
    let ghost s = p@;
    let n = p.unicode_len();
    let mut ranges: Vec<(usize, usize)> = Vec::new();
    let ghost mut closed: Seq<Seq<char>> = seq![];
    let mut start: usize = 0;
    let mut i: usize = 0;
    assert(s.subrange(0, 0) =~= seq![]);
    assert(closed.push(seq![]) =~= seq![seq![]]);
    while i < n
        invariant
            s == p@,
            n == s.len(),
            start <= i <= n,
            segments(s.subrange(0, i as int)) == closed.push(s.subrange(start as int, i as int)),
            spans(s, ranges@, named(closed)),
        decreases n - i,
    {
        let c = p.get_char(i);
        let ghost prev = s.subrange(0, i as int);
        assert(s.subrange(0, i + 1).drop_last() =~= prev);
        proof {
            lemma_segments_nonempty(prev);
        }
        if c == '/' {
            let ghost seg = s.subrange(start as int, i as int);
            let named_seg = i > start && !(i - start == 1 && p.get_char(start) == '.');
            proof {
                if i - start == 1 {
                    lemma_dot(seg);
                    assert(seg[0] == s[start as int]);
                } else if i - start > 1 {
                    lemma_long_is_named(seg);
                }
                lemma_named_push(closed, seg);
                if named_seg {
                    lemma_spans_push(s, ranges@, named(closed), start, i);
                }
            }
            if named_seg {
                ranges.push((start, i));
            }
            proof {
                closed = closed.push(seg);
                assert(s.subrange(i + 1, i + 1) =~= seq![]);
            }
            start = i + 1;
        } else {
            proof {
                assert(s.subrange(start as int, i + 1) =~= s.subrange(start as int, i as int).push(c));
            }
        }
        i = i + 1;
    }
    assert(s.subrange(0, n as int) =~= s);
    let ghost seg = s.subrange(start as int, n as int);
    let named_seg = n > start && !(n - start == 1 && p.get_char(start) == '.');
    proof {
        if n - start == 1 {
            lemma_dot(seg);
            assert(seg[0] == s[start as int]);
        } else if n - start > 1 {
            lemma_long_is_named(seg);
        }
        lemma_named_push(closed, seg);
        if named_seg {
            lemma_spans_push(s, ranges@, named(closed), start, n);
        }
    }
    if named_seg {
        ranges.push((start, n));
    }
    ranges
}

/// Checks that `maildir_new_path` is absolute, ends in a `new` component
/// and has `Maildir` as the component before it, and returns the mailbox
/// root: the path without its last component.
pub fn parse_maildir_new_path(maildir_new_path: &str) -> (r: Result<String, PathError>)
    ensures
        r matches Ok(root) ==> mailbox_root_of(maildir_new_path@) == Ok::<Seq<char>, PathError>(root@),
        r matches Err(e) ==> mailbox_root_of(maildir_new_path@) == Err::<Seq<char>, PathError>(e),
{
    let p = maildir_new_path;
    let ghost s = p@;
    let n = p.unicode_len();
    if n == 0 || p.get_char(0) != '/' {
        return Err(PathError::PathNotAbsolute);
    }
    let ranges = component_ranges(p);
    let ghost cs = components(s);
    assert(ranges@.len() == cs.len());
    let m = ranges.len();
    if m == 0 || !spells(p, ranges[m - 1].0, ranges[m - 1].1, "new") {
        return Err(PathError::MissingNewComponent);
    }
    if m < 2 || !spells(p, ranges[m - 2].0, ranges[m - 2].1, "Maildir") {
        return Err(PathError::MissingMailboxMarker);
    }
    let mut root = String::from_str("/");
    let mut k: usize = 0;
    proof {
        reveal_strlit("/");
        assert(cs.subrange(0, 0) =~= seq![]);
        assert(root@ =~= seq!['/'] + join(cs.subrange(0, 0)));
    }
    while k < m - 1
        invariant
            s == p@,
            m == ranges@.len(),
            m == cs.len(),
            m >= 2,
            k <= m - 1,
            spans(s, ranges@, cs),
            root@ == seq!['/'] + join(cs.subrange(0, k as int)),
        decreases m - 1 - k,
    {
        let (a, b) = ranges[k];
        let piece = p.substring_char(a, b);
        let ghost before = cs.subrange(0, k as int);
        let ghost after = cs.subrange(0, k + 1);
        assert(after.drop_last() =~= before);
        if k > 0 {
            root.append("/");
            proof { reveal_strlit("/"); }
        }
        root.append(piece);
        proof {
            assert(after.last() == cs[k as int]);
            if k == 0 {
                assert(join(before) =~= seq![]);
                assert(join(after) == after[0]);
            } else {
                assert(join(after) == join(before) + seq!['/'] + cs[k as int]);
            }
        }
        assert(root@ =~= seq!['/'] + join(after));
        k = k + 1;
    }
    proof {
        reveal_strlit("/");
        assert(cs.subrange(0, m - 1) =~= cs.drop_last());
    }
    Ok(root)
}

} // verus!
