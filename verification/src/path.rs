//! Projection paths: sequences of segments, written with `.` between segments.
use vstd::prelude::*;

use crate::text::{chars_of, debug_quote, debug_text, push_char, str_eq};

verus! {

/// The segments of a path as character sequences.
pub open spec fn path_view(p: Seq<String>) -> Seq<Seq<char>> {
    Seq::new(p.len(), |i: int| p[i]@)
}

/// `text` split at every `.`; an empty text is one empty segment.
pub open spec fn split_dots(text: Seq<char>) -> Seq<Seq<char>>
    decreases text.len(),
{
    if text.len() == 0 {
        seq![seq![]]
    } else {
        let rest = split_dots(text.drop_last());
        if text.last() == '.' {
            rest.push(seq![])
        } else {
            rest.update(rest.len() - 1, rest.last().push(text.last()))
        }
    }
}

pub proof fn lemma_split_nonempty(text: Seq<char>)
    ensures
        split_dots(text).len() >= 1,
    decreases text.len(),
{
    if text.len() > 0 {
        lemma_split_nonempty(text.drop_last());
    }
}

proof fn lemma_join_extends_last(p: Seq<Seq<char>>, x: Seq<char>)
    requires
        p.len() >= 1,
    ensures
        join_dots(p.update(p.len() - 1, p.last() + x)) == join_dots(p) + x,
{
    let q = p.update(p.len() - 1, p.last() + x);
    if p.len() > 1 {
        assert(q.drop_last() =~= p.drop_last());
        assert(join_dots(q) == join_dots(p.drop_last()) + seq!['.'] + (p.last() + x));
        assert(join_dots(q) =~= join_dots(p) + x);
    }
}

proof fn lemma_join_push_empty(p: Seq<Seq<char>>)
    requires
        p.len() >= 1,
    ensures
        join_dots(p.push(seq![])) == join_dots(p) + seq!['.'],
{
    let q = p.push(seq![]);
    assert(q.drop_last() =~= p);
    assert(join_dots(q) =~= join_dots(p) + seq!['.']);
}

/// Joining the segments of a text with `.` gives the text back.
pub proof fn lemma_join_split(text: Seq<char>)
    ensures
        join_dots(split_dots(text)) == text,
    decreases text.len(),
{
    if text.len() > 0 {
        let rest = split_dots(text.drop_last());
        lemma_join_split(text.drop_last());
        lemma_split_nonempty(text.drop_last());
        if text.last() == '.' {
            lemma_join_push_empty(rest);
        } else {
            assert(rest.last().push(text.last()) =~= rest.last() + seq![text.last()]);
            lemma_join_extends_last(rest, seq![text.last()]);
        }
        assert(text.drop_last() + seq![text.last()] =~= text);
    }
}

/// Appending text without a `.` extends the last segment.
proof fn lemma_split_append(s: Seq<char>, b: Seq<char>)
    requires
        !b.contains('.'),
    ensures
        split_dots(s + b) == split_dots(s).update(split_dots(s).len() - 1, split_dots(s).last() + b),
    decreases b.len(),
{
    lemma_split_nonempty(s);
    let p = split_dots(s);
    if b.len() == 0 {
        assert(s + b =~= s);
        assert(p.last() + b =~= p.last());
        assert(p.update(p.len() - 1, p.last()) =~= p);
    } else {
        let b0 = b.drop_last();
        assert(!b0.contains('.')) by {
            if b0.contains('.') {
                let k = choose|k: int| 0 <= k < b0.len() && b0[k] == '.';
                assert(b[k] == '.');
            }
        }
        lemma_split_append(s, b0);
        assert((s + b).drop_last() =~= s + b0);
        assert(b.last() != '.') by {
            assert(b[b.len() - 1] == b.last());
        }
        let q = p.update(p.len() - 1, p.last() + b0);
        assert(q.last() == p.last() + b0);
        assert((p.last() + b0).push(b.last()) =~= p.last() + b);
        assert(q.update(q.len() - 1, q.last().push(b.last())) =~= p.update(p.len() - 1, p.last() + b));
    }
}

/// Splitting joined segments at `.` gives the segments back, when there is at least one
/// segment and none holds a `.`.
pub proof fn lemma_split_join(p: Seq<Seq<char>>)
    requires
        p.len() >= 1,
        forall|i: int| 0 <= i < p.len() ==> !(#[trigger] p[i]).contains('.'),
    ensures
        split_dots(join_dots(p)) == p,
    decreases p.len(),
{
    if p.len() == 1 {
        lemma_split_append(seq![], p[0]);
        assert(seq![] + p[0] =~= p[0]);
        assert(seq![seq![]].update(0, seq![] + p[0]) =~= p);
    } else {
        let q = p.drop_last();
        lemma_split_join(q);
        let head = join_dots(q) + seq!['.'];
        assert(split_dots(head) == split_dots(join_dots(q)).push(seq![])) by {
            assert(head.drop_last() =~= join_dots(q));
        }
        assert(!p[p.len() - 1].contains('.'));
        lemma_split_append(head, p.last());
        assert(join_dots(p) == head + p.last());
        assert(q.push(seq![]).update(q.len() as int, seq![] + p.last()) =~= p);
    }
}

/// `prefix` is a prefix of `path`.
pub open spec fn starts_with(path: Seq<Seq<char>>, prefix: Seq<Seq<char>>) -> bool {
    prefix.len() <= path.len() && path.take(prefix.len() as int) == prefix
}

/// Two projection paths conflict when one strictly extends the other.
pub open spec fn spec_paths_conflict(left: Seq<Seq<char>>, right: Seq<Seq<char>>) -> bool {
    left.len() != 0 && right.len() != 0 && left.len() != right.len() && (if left.len()
        < right.len() {
        starts_with(right, left)
    } else {
        starts_with(left, right)
    })
}

/// The segments joined with `.`.
pub open spec fn join_dots(p: Seq<Seq<char>>) -> Seq<char>
    decreases p.len(),
{
    if p.len() == 0 {
        seq![]
    } else if p.len() == 1 {
        p[0]
    } else {
        join_dots(p.drop_last()) + seq!['.'] + p.last()
    }
}

/// `Debug` text of a list of strings: `["a", "b"]`.
pub open spec fn debug_list(p: Seq<Seq<char>>) -> Seq<char> {
    seq!['['] + debug_items(p) + seq![']']
}

pub open spec fn debug_items(p: Seq<Seq<char>>) -> Seq<char>
    decreases p.len(),
{
    if p.len() == 0 {
        seq![]
    } else if p.len() == 1 {
        debug_text(p[0])
    } else {
        debug_items(p.drop_last()) + seq![',', ' '] + debug_text(p.last())
    }
}

/// A projection path parsed from its dotted text.
pub fn parse_path(text: &str) -> (r: Vec<String>)
    ensures
        path_view(r@) == split_dots(text@),
{
    let chars = chars_of(text);
    let mut segments: Vec<String> = Vec::new();
    let mut current = String::new();
    let mut i: usize = 0;
    proof {
        assert(path_view(segments@).push(current@) =~= split_dots(chars@.take(0)));
    }
    while i < chars.len()
        invariant
            chars@ == text@,
            i <= chars@.len(),
            path_view(segments@).push(current@) == split_dots(chars@.take(i as int)),
        decreases chars.len() - i,
    {
        let c = chars[i];
        let ghost before = path_view(segments@).push(current@);
        assert(chars@.take(i + 1).drop_last() =~= chars@.take(i as int));
        if c == '.' {
            segments.push(current);
            current = String::new();
            assert(path_view(segments@).push(current@) =~= before.push(seq![]));
        } else {
            push_char(&mut current, c);
            assert(path_view(segments@).push(current@) =~= before.update(
                before.len() - 1,
                before.last().push(c),
            ));
        }
        i = i + 1;
    }
    assert(chars@.take(chars@.len() as int) =~= chars@);
    let ghost before = path_view(segments@);
    segments.push(current);
    assert(path_view(segments@) =~= before.push(current@));
    segments
}

/// Segment-wise equality of two paths.
pub fn same_path(a: &Vec<String>, b: &Vec<String>) -> (r: bool)
    ensures
        r == (path_view(a@) == path_view(b@)),
{
    if a.len() != b.len() {
        assert(path_view(a@).len() != path_view(b@).len());
        return false;
    }
    let r = path_starts_with(a, b);
    assert(path_view(a@).take(b@.len() as int) =~= path_view(a@));
    r
}

/// Whether `prefix` is a prefix of `path`.
pub fn path_starts_with(path: &Vec<String>, prefix: &Vec<String>) -> (r: bool)
    ensures
        r == starts_with(path_view(path@), path_view(prefix@)),
{
    if prefix.len() > path.len() {
        return false;
    }
    let mut i: usize = 0;
    while i < prefix.len()
        invariant
            prefix@.len() <= path@.len(),
            i <= prefix@.len(),
            forall|j: int| 0 <= j < i ==> (#[trigger] path@[j])@ == prefix@[j]@,
        decreases prefix.len() - i,
    {
        if !str_eq(path[i].as_str(), prefix[i].as_str()) {
            assert(path_view(path@).take(prefix@.len() as int)[i as int] != path_view(prefix@)[i as int]);
            return false;
        }
        i = i + 1;
    }
    assert(path_view(path@).take(prefix@.len() as int) =~= path_view(prefix@));
    true
}

pub fn paths_conflict(left: &Vec<String>, right: &Vec<String>) -> (r: bool)
    ensures
        r == spec_paths_conflict(path_view(left@), path_view(right@)),
{
    if left.len() == 0 || right.len() == 0 || left.len() == right.len() {
        return false;
    }
    if left.len() < right.len() {
        path_starts_with(right, left)
    } else {
        path_starts_with(left, right)
    }
}

/// The dotted text of a path.
pub fn join_path(p: &Vec<String>) -> (r: String)
    ensures
        r@ == join_dots(path_view(p@)),
{
    let mut r = String::new();
    let mut i: usize = 0;
    while i < p.len()
        invariant
            i <= p@.len(),
            r@ == join_dots(path_view(p@).take(i as int)),
        decreases p.len() - i,
    {
        assert(path_view(p@).take(i + 1).drop_last() =~= path_view(p@).take(i as int));
        if i > 0 {
            push_char(&mut r, '.');
        }
        r.append(p[i].as_str());
        proof {
            if i == 0 {
                assert(r@ =~= join_dots(path_view(p@).take(1)));
            } else {
                assert(r@ =~= join_dots(path_view(p@).take(i + 1)));
            }
        }
        i = i + 1;
    }
    assert(path_view(p@).take(p@.len() as int) =~= path_view(p@));
    r
}

/// The `Debug` text of a path: its quoted segments in brackets.
pub fn debug_path(p: &Vec<String>) -> (r: String)
    ensures
        r@ == debug_list(path_view(p@)),
{
    let mut r = String::new();
    push_char(&mut r, '[');
    let mut i: usize = 0;
    while i < p.len()
        invariant
            i <= p@.len(),
            r@ == seq!['['] + debug_items(path_view(p@).take(i as int)),
        decreases p.len() - i,
    {
        assert(path_view(p@).take(i + 1).drop_last() =~= path_view(p@).take(i as int));
        if i > 0 {
            push_char(&mut r, ',');
            push_char(&mut r, ' ');
        }
        r.append(debug_quote(p[i].as_str()).as_str());
        proof {
            if i == 0 {
                assert(r@ =~= seq!['['] + debug_items(path_view(p@).take(1)));
            } else {
                assert(r@ =~= seq!['['] + debug_items(path_view(p@).take(i + 1)));
            }
        }
        i = i + 1;
    }
    assert(path_view(p@).take(p@.len() as int) =~= path_view(p@));
    push_char(&mut r, ']');
    r
}

} // verus!
