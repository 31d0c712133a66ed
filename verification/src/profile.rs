//! The managed block that `init` writes into the PowerShell profile and
//! `reset` takes out again: its markers, its text, and which lines of a
//! profile lie outside it.
use vstd::prelude::*;
use crate::text::{
    append_chars, append_str, chars_of, concat_all, contains, escape_backslashes, is_ws,
    lemma_concat_all_push, lemma_concat_segments, lemma_contains_in_suffix,
    lemma_contains_trans, lemma_escape_no_newline, lemma_pieces_concat,
    lemma_pieces_facts, lemma_pieces_len, lemma_pieces_single, lemma_segments_concat,
    lemma_segments_form, lemma_segments_of_concat, lemma_trim_contained, lemma_trim_first,
    lemma_trim_newline, line_ok, pieces, range_equals, segments, segments_of, segs_form,
    string_from_chars, terminated, trim, trim_bounds, trim_end, trim_start,
};

verus! {

/// The line that opens the managed block.
pub const PROFILE_MARKER: &'static str = "# >>> kuku integration >>>";

/// The line that closes the managed block.
pub const PROFILE_MARKER_END: &'static str = "# <<< kuku integration <<<";

/// The managed-block markers as character sequences.
pub open spec fn marker() -> Seq<char> {
    PROFILE_MARKER@
}

pub open spec fn marker_end() -> Seq<char> {
    PROFILE_MARKER_END@
}

/// Whether `line` (with or without its newline) reads as the opening marker.
pub open spec fn is_open(line: Seq<char>) -> bool {
    trim(line) == marker()
}

/// Whether `line` reads as the closing marker.
pub open spec fn is_close(line: Seq<char>) -> bool {
    trim(line) == marker_end()
}

/// Whether, after `line`, the scan is inside a block: outside, an opening
/// line enters one; inside, only a closing line leaves it.
pub open spec fn next_inside(inside: bool, line: Seq<char>) -> bool {
    if inside {
        !is_close(line)
    } else {
        is_open(line)
    }
}

/// Whether `line` is kept when seen in state `inside`: only lines outside
/// every block are, and an opening line never is. A closing line with no
/// block open is kept like any other line.
pub open spec fn keeps(inside: bool, line: Seq<char>) -> bool {
    !inside && !is_open(line)
}

/// The scan state after the lines `ls`, starting in state `st`.
pub open spec fn state_after(st: bool, ls: Seq<Seq<char>>) -> bool
    decreases ls.len(),
{
    if ls.len() == 0 {
        st
    } else {
        next_inside(state_after(st, ls.drop_last()), ls.last())
    }
}

/// The lines of `ls` that the scan keeps, starting in state `st`.
pub open spec fn kept(st: bool, ls: Seq<Seq<char>>) -> Seq<Seq<char>>
    decreases ls.len(),
{
    if ls.len() == 0 {
        Seq::empty()
    } else {
        let prev = kept(st, ls.drop_last());
        if keeps(state_after(st, ls.drop_last()), ls.last()) {
            prev.push(ls.last())
        } else {
            prev
        }
    }
}

/// Whether the scan of `ls` (from outside a block) drops its last line.
pub open spec fn last_dropped(ls: Seq<Seq<char>>) -> bool {
    ls.len() > 0 && !keeps(state_after(false, ls.drop_last()), ls.last())
}

/// Whether the scan of `ls` drops its last line and ends outside every
/// block: the lines end with a block that is closed.
pub open spec fn ends_with_closed_block(ls: Seq<Seq<char>>) -> bool {
    last_dropped(ls) && !state_after(false, ls)
}

/// What `reset` leaves of a profile: its lines outside the managed block,
/// byte for byte. Where the profile ends with a closed block, the last
/// character kept goes too: the newline that `init` put before the block.
/// A block left open keeps the newline before it.
pub open spec fn removed_text(content: Seq<char>) -> Seq<char> {
    let ls = segments(content);
    let out = concat_all(kept(false, ls));
    if ends_with_closed_block(ls) && out.len() > 0 {
        out.drop_last()
    } else {
        out
    }
}

/// `s` without any trailing newline.
pub open spec fn trim_newlines_end(s: Seq<char>) -> Seq<char>
    decreases s.len(),
{
    if s.len() > 0 && s.last() == '\n' {
        trim_newlines_end(s.drop_last())
    } else {
        s
    }
}

/// What replacing the managed block gives: the profile without its block
/// and without trailing newlines, a blank line, and the new block; or the
/// new block alone where nothing else is left.
pub open spec fn replaced_text(content: Seq<char>, block: Seq<char>) -> Seq<char> {
    let t = trim_newlines_end(removed_text(content));
    if t.len() == 0 {
        block
    } else {
        t + seq!['\n', '\n'] + block
    }
}

/// The profile text that `init` writes, given the text that was there: the
/// block replaced where the profile already names the opening marker,
/// otherwise the block alone or appended after a newline.
pub open spec fn composed_text(existing: Seq<char>, block: Seq<char>) -> Seq<char> {
    if contains(existing, marker()) {
        replaced_text(existing, block)
    } else if existing.len() == 0 {
        block
    } else {
        existing + seq!['\n'] + block
    }
}

/// Whether no line of `t` reads as the opening marker.
pub open spec fn open_free(t: Seq<char>) -> bool {
    forall|k: int| 0 <= k < pieces(t).len() ==> !is_open(#[trigger] pieces(t)[k])
}

/// Whether `b` is a managed block: its first line opens it, its last line
/// closes it, and no line between reads as either marker.
pub open spec fn block_ok(b: Seq<char>) -> bool {
    let s = segments(b);
    &&& s.len() >= 2
    &&& is_open(s[0])
    &&& is_close(s.last())
    &&& forall|i: int| 0 < i < s.len() - 1 ==> !is_open(#[trigger] s[i]) && !is_close(s[i])
}

/// How many of the lines `ls` read as the opening marker.
pub open spec fn open_count(ls: Seq<Seq<char>>) -> nat
    decreases ls.len(),
{
    if ls.len() == 0 {
        0
    } else {
        open_count(ls.drop_last()) + if is_open(ls.last()) {
            1nat
        } else {
            0nat
        }
    }
}

/// Scans `content` line by line, newlines included, and gives what `reset`
/// leaves of it.
pub(crate) fn removed_chars(content: &str) -> (r: Vec<char>)
    ensures
        r@ == removed_text(content@),
{
    let v = chars_of(content);
    let segs = segments_of(v.as_slice());
    let m = chars_of(PROFILE_MARKER);
    let e = chars_of(PROFILE_MARKER_END);
    let ghost all = segments(content@);
    let mut result: Vec<char> = Vec::new();
    let mut inside = false;
    let mut dropped = false;
    let mut k: usize = 0;
    proof {
        assert(all.take(0) =~= Seq::<Seq<char>>::empty());
    }
    while k < segs.len()
        invariant
            k <= segs@.len() == all.len(),
            all == segments(content@),
            forall|t: int| 0 <= t < segs@.len() ==> (#[trigger] segs@[t])@ == all[t],
            m@ == marker(),
            e@ == marker_end(),
            inside == state_after(false, all.take(k as int)),
            dropped == last_dropped(all.take(k as int)),
            result@ == concat_all(kept(false, all.take(k as int))),
        decreases segs@.len() - k,
    {
        let line = &segs[k];
        let (a, b) = trim_bounds(line.as_slice());
        let open = range_equals(line.as_slice(), a, b, m.as_slice());
        let close = range_equals(line.as_slice(), a, b, e.as_slice());
        proof {
            assert(all.take(k + 1).drop_last() =~= all.take(k as int));
            assert(all.take(k + 1).last() == all[k as int]);
        }
        if !inside && !open {
            append_chars(&mut result, line.as_slice());
            proof {
                lemma_concat_all_push(kept(false, all.take(k as int)), all[k as int]);
            }
            dropped = false;
        } else {
            dropped = true;
        }
        inside = if inside {
            !close
        } else {
            open
        };
        k = k + 1;
    }
    proof {
        assert(all.take(segs@.len() as int) =~= all);
    }
    if dropped && !inside && result.len() > 0 {
        result.pop();
    }
    result
}

/// Facts about the two marker lines.
pub proof fn lemma_marker_facts()
    ensures
        marker().len() > 0,
        marker_end().len() > 0,
        marker() != marker_end(),
        marker()[0] == '#',
        marker_end()[0] == '#',
        trim(marker()) == marker(),
        trim(marker_end()) == marker_end(),
        pieces(marker()) == seq![marker()],
        pieces(marker_end()) == seq![marker_end()],
{
    reveal_strlit("# >>> kuku integration >>>");
    reveal_strlit("# <<< kuku integration <<<");
    let m = marker();
    let e = marker_end();
    assert(m[2] != e[2]);
    assert(trim_start(m) == m);
    assert(trim_end(m) == m);
    assert(trim_start(e) == e);
    assert(trim_end(e) == e);
    lemma_pieces_single(m);
    lemma_pieces_single(e);
}

pub proof fn lemma_kept_concat(st: bool, x: Seq<Seq<char>>, y: Seq<Seq<char>>)
    ensures
        state_after(st, x + y) == state_after(state_after(st, x), y),
        kept(st, x + y) == kept(st, x) + kept(state_after(st, x), y),
    decreases y.len(),
{
    if y.len() == 0 {
        assert(x + y =~= x);
        assert(kept(st, x) + kept(state_after(st, x), y) =~= kept(st, x));
    } else {
        assert((x + y).drop_last() =~= x + y.drop_last());
        lemma_kept_concat(st, x, y.drop_last());
        let s0 = state_after(st, x);
        let a = kept(st, x);
        let b = kept(s0, y.drop_last());
        if keeps(state_after(s0, y.drop_last()), y.last()) {
            assert((a + b).push(y.last()) =~= a + b.push(y.last()));
        }
    }
}

/// Lines of which none opens a block pass a scan outside a block unchanged.
pub proof fn lemma_kept_plain(x: Seq<Seq<char>>)
    requires
        forall|k: int| 0 <= k < x.len() ==> !is_open(#[trigger] x[k]),
    ensures
        state_after(false, x) == false,
        kept(false, x) == x,
        !last_dropped(x),
    decreases x.len(),
{
    if x.len() > 0 {
        lemma_kept_plain(x.drop_last());
        assert(!is_open(x[x.len() - 1]));
        assert(x.drop_last().push(x.last()) =~= x);
    }
}

/// Inside a block, lines of which none closes it keep nothing.
pub proof fn lemma_kept_inside(x: Seq<Seq<char>>)
    requires
        forall|k: int| 0 <= k < x.len() ==> !is_close(#[trigger] x[k]),
    ensures
        state_after(true, x) == true,
        kept(true, x) == Seq::<Seq<char>>::empty(),
    decreases x.len(),
{
    if x.len() > 0 {
        lemma_kept_inside(x.drop_last());
        assert(!is_close(x[x.len() - 1]));
    }
}

/// Every kept line is a line of the input and no opening line.
pub proof fn lemma_kept_elements(st: bool, x: Seq<Seq<char>>)
    ensures
        forall|k: int|
            0 <= k < kept(st, x).len() ==> x.contains(#[trigger] kept(st, x)[k]) && !is_open(
                kept(st, x)[k],
            ),
    decreases x.len(),
{
    if x.len() > 0 {
        let t = x.drop_last();
        lemma_kept_elements(st, t);
        let kx = kept(st, x);
        let kt = kept(st, t);
        assert forall|k: int| 0 <= k < kx.len() implies x.contains(#[trigger] kx[k]) && !is_open(kx[k]) by {
            if k < kt.len() {
                assert(kx[k] == kt[k]);
                let j = choose|j: int| 0 <= j < t.len() && t[j] == kt[k];
                assert(x[j] == t[j]);
            } else {
                assert(kx[k] == x[x.len() - 1]);
            }
        }
    }
}


/// The empty text has no lines.
pub proof fn lemma_segments_empty()
    ensures
        pieces(Seq::<char>::empty()) == seq![Seq::<char>::empty()],
        segments(Seq::<char>::empty()) == Seq::<Seq<char>>::empty(),
        trim(Seq::<char>::empty()) == Seq::<char>::empty(),
{
    let z = Seq::<char>::empty();
    assert(pieces(z) =~= seq![z]);
    assert(segments(z) =~= Seq::<Seq<char>>::empty());
    assert(trim(z) =~= z);
}

/// A line with its newline reads as the same marker, or none, as the piece
/// of text it holds.
pub proof fn lemma_seg_pieces(t: Seq<char>)
    ensures
        pieces(t).len() >= 1,
        segments(t).len() == pieces(t).len() || (segments(t).len() == pieces(t).len() - 1
            && pieces(t).last().len() == 0),
        forall|k: int| 0 <= k < segments(t).len() ==> trim(#[trigger] segments(t)[k]) == trim(pieces(t)[k]),
{
    lemma_pieces_len(t);
    let p = pieces(t);
    let n = p.len() as int;
    let s = segments(t);
    assert forall|k: int| 0 <= k < s.len() implies trim(#[trigger] s[k]) == trim(p[k]) by {
        if k < n - 1 {
            assert(s[k] == p.take(n - 1).map_values(|l: Seq<char>| l + seq!['\n'])[k]);
            lemma_trim_newline(p[k]);
        } else {
            assert(s[k] == p[n - 1]);
        }
    }
}

/// A text has no opening line exactly when none of its lines, newlines
/// included, reads as the opening marker.
pub proof fn lemma_open_free_segments(t: Seq<char>)
    ensures
        open_free(t) <==> forall|k: int| 0 <= k < segments(t).len() ==> !is_open(#[trigger] segments(t)[k]),
{
    lemma_seg_pieces(t);
    lemma_marker_facts();
    lemma_segments_empty();
    let p = pieces(t);
    let s = segments(t);
    if open_free(t) {
        assert forall|k: int| 0 <= k < s.len() implies !is_open(#[trigger] s[k]) by {
            assert(!is_open(p[k]));
        }
    }
    if forall|k: int| 0 <= k < s.len() ==> !is_open(#[trigger] s[k]) {
        assert forall|k: int| 0 <= k < p.len() implies !is_open(#[trigger] p[k]) by {
            if k < s.len() {
                assert(!is_open(s[k]));
            } else {
                assert(p[k] =~= Seq::<char>::empty());
            }
        }
    }
}

/// A text without an opening line passes the scan whole: `reset` leaves it
/// as it is.
pub proof fn lemma_open_free_scan(t: Seq<char>)
    requires
        open_free(t),
    ensures
        state_after(false, segments(t)) == false,
        kept(false, segments(t)) == segments(t),
        !last_dropped(segments(t)),
        removed_text(t) == t,
{
    lemma_open_free_segments(t);
    lemma_kept_plain(segments(t));
    lemma_concat_segments(t);
}

/// A line of `t` that reads as the opening marker makes `t` contain it.
pub proof fn lemma_open_line_contained(t: Seq<char>, k: int)
    requires
        0 <= k < pieces(t).len(),
        is_open(pieces(t)[k]),
    ensures
        contains(t, marker()),
{
    lemma_pieces_facts(t);
    let p = pieces(t)[k];
    assert(contains(t, p));
    lemma_trim_contained(p);
    lemma_contains_trans(t, p, trim(p));
}

/// A text that does not contain the opening marker has no opening line.
pub proof fn lemma_unmarked_open_free(t: Seq<char>)
    requires
        !contains(t, marker()),
    ensures
        open_free(t),
{
    assert forall|k: int| 0 <= k < pieces(t).len() implies !is_open(#[trigger] pieces(t)[k]) by {
        if is_open(pieces(t)[k]) {
            lemma_open_line_contained(t, k);
        }
    }
}

/// A newline after a text without an opening line adds an empty line.
pub proof fn lemma_open_free_newline(c: Seq<char>)
    requires
        open_free(c),
    ensures
        open_free(c + seq!['\n']),
{
    let x = c + seq!['\n'];
    assert(x.drop_last() =~= c);
    lemma_pieces_len(c);
    let pc = pieces(c);
    assert(pieces(x) == pc.push(Seq::<char>::empty()));
    lemma_marker_facts();
    lemma_segments_empty();
    assert forall|k: int| 0 <= k < pieces(x).len() implies !is_open(#[trigger] pieces(x)[k]) by {
        if k < pc.len() {
            assert(pieces(x)[k] == pc[k]);
        } else {
            assert(pieces(x)[k] == Seq::<char>::empty());
        }
    }
}

/// After a newline-terminated text, the lines of what follows are lines of
/// their own.
pub proof fn lemma_segments_append(x: Seq<char>, y: Seq<char>)
    requires
        x.len() > 0,
        x.last() == '\n',
    ensures
        segments(x + y) == segments(x) + segments(y),
{
    let a = x.drop_last();
    let z = Seq::<char>::empty();
    assert(x =~= a + seq!['\n'] + z);
    assert(x + y =~= a + seq!['\n'] + y);
    lemma_segments_concat(a, z);
    lemma_segments_concat(a, y);
    lemma_segments_empty();
    assert(segments(x) =~= pieces(a).map_values(|l: Seq<char>| l + seq!['\n']));
}

/// The scan of a managed block keeps none of it and ends outside, having
/// been inside up to its last line.
pub proof fn lemma_block_scan(b: Seq<char>)
    requires
        block_ok(b),
    ensures
        state_after(false, segments(b).drop_last()) == true,
        state_after(false, segments(b)) == false,
        kept(false, segments(b)) == Seq::<Seq<char>>::empty(),
        last_dropped(segments(b)),
        removed_text(b) == Seq::<char>::empty(),
        open_count(segments(b)) == 1,
{
    lemma_marker_facts();
    let s = segments(b);
    let n = s.len() as int;
    let z = Seq::<Seq<char>>::empty();
    let first = seq![s[0]];
    let mid = s.subrange(1, n - 1);
    let last = seq![s[n - 1]];
    assert(first.drop_last() =~= z);
    assert(last.drop_last() =~= z);
    assert(first.last() == s[0]);
    assert(last.last() == s[n - 1]);
    assert(kept(false, z) == z);
    assert(kept(true, z) == z);
    assert(open_count(z) == 0);
    assert(state_after(false, first) == true);
    assert(kept(false, first) =~= z);
    assert(open_count(first) == 1);
    assert forall|k: int| 0 <= k < mid.len() implies !is_close(#[trigger] mid[k]) by {
        assert(mid[k] == s[k + 1]);
    }
    lemma_kept_inside(mid);
    assert(state_after(true, last) == false);
    assert(kept(true, last) =~= z);
    assert(!is_open(s[n - 1]));
    assert(open_count(last) == 0);
    assert forall|k: int| 0 <= k < mid.len() implies !is_open(#[trigger] mid[k]) by {
        assert(mid[k] == s[k + 1]);
    }
    lemma_open_count_none(mid);
    lemma_open_count_concat(first, mid);
    lemma_open_count_concat(first + mid, last);
    lemma_kept_concat(false, first, mid);
    lemma_kept_concat(false, first + mid, last);
    assert(s.drop_last() =~= first + mid);
    assert(s =~= first + mid + last);
    assert(s.last() == s[n - 1]);
}

pub proof fn lemma_open_count_concat(x: Seq<Seq<char>>, y: Seq<Seq<char>>)
    ensures
        open_count(x + y) == open_count(x) + open_count(y),
    decreases y.len(),
{
    if y.len() == 0 {
        assert(x + y =~= x);
    } else {
        assert((x + y).drop_last() =~= x + y.drop_last());
        lemma_open_count_concat(x, y.drop_last());
    }
}

pub proof fn lemma_open_count_none(x: Seq<Seq<char>>)
    requires
        forall|k: int| 0 <= k < x.len() ==> !is_open(#[trigger] x[k]),
    ensures
        open_count(x) == 0,
    decreases x.len(),
{
    if x.len() > 0 {
        lemma_open_count_none(x.drop_last());
        assert(!is_open(x[x.len() - 1]));
    }
}

/// A managed block names the opening marker.
pub proof fn lemma_block_contains_marker(b: Seq<char>)
    requires
        block_ok(b),
    ensures
        contains(b, marker()),
{
    lemma_seg_pieces(b);
    assert(is_open(pieces(b)[0]));
    lemma_open_line_contained(b, 0);
}

/// A managed block appended after a newline to a text without an opening
/// line is taken out again by `reset`, newline included: the text comes
/// back as it was.
pub proof fn lemma_append_then_remove(c: Seq<char>, b: Seq<char>)
    requires
        open_free(c),
        c.len() > 0,
        block_ok(b),
    ensures
        removed_text(c + seq!['\n'] + b) == c,
{
    let x = c + seq!['\n'];
    lemma_open_free_newline(c);
    lemma_open_free_scan(x);
    lemma_segments_append(x, b);
    let sx = segments(x);
    let sb = segments(b);
    let all = segments(c + seq!['\n'] + b);
    assert(c + seq!['\n'] + b =~= x + b);
    assert(all == sx + sb);
    lemma_block_scan(b);
    lemma_kept_concat(false, sx, sb);
    assert(kept(false, all) =~= sx);
    assert(all.drop_last() =~= sx + sb.drop_last());
    lemma_kept_concat(false, sx, sb.drop_last());
    assert(all.last() == sb.last());
    assert(last_dropped(all));
    lemma_concat_segments(x);
    assert(x.drop_last() =~= c);
}

/// What the scan keeps of well-formed lines is well-formed lines again;
/// where it drops the last line, every kept line ends with a newline.
pub proof fn lemma_kept_form(st: bool, ls: Seq<Seq<char>>)
    requires
        segs_form(ls),
        ls.len() > 0,
    ensures
        segs_form(kept(st, ls)),
        !keeps(state_after(st, ls.drop_last()), ls.last()) ==> forall|i: int|
            0 <= i < kept(st, ls).len() ==> terminated(#[trigger] kept(st, ls)[i]),
{
    let t = ls.drop_last();
    let k0 = kept(st, t);
    lemma_kept_elements(st, t);
    assert forall|i: int| 0 <= i < k0.len() implies line_ok(#[trigger] k0[i]) && terminated(k0[i]) by {
        let j = choose|j: int| 0 <= j < t.len() && t[j] == k0[i];
        assert(ls[j] == t[j]);
    }
    let k = kept(st, ls);
    if keeps(state_after(st, t), ls.last()) {
        assert(k == k0.push(ls.last()));
        assert(ls.last() == ls[ls.len() - 1]);
        assert forall|i: int| 0 <= i < k.len() implies line_ok(#[trigger] k[i]) && (i < k.len() - 1
            ==> terminated(k[i])) by {
            if i < k0.len() {
                assert(k[i] == k0[i]);
            }
        }
    } else {
        assert(k == k0);
    }
}

/// What `reset` leaves has no opening line.
pub proof fn lemma_removed_open_free(c: Seq<char>)
    ensures
        open_free(removed_text(c)),
{
    let ls = segments(c);
    let k = kept(false, ls);
    let out = concat_all(k);
    lemma_kept_elements(false, ls);
    lemma_segments_empty();
    if ls.len() == 0 {
        assert(k == Seq::<Seq<char>>::empty());
        assert(out =~= Seq::<char>::empty());
        assert(removed_text(c) == out);
        lemma_segments_empty();
        lemma_open_free_segments(out);
    } else {
        lemma_segments_form(c);
        lemma_kept_form(false, ls);
        if ends_with_closed_block(ls) && out.len() > 0 {
            assert(k.len() > 0);
            let p = k.drop_last();
            let l = k.last();
            assert(terminated(l)) by {
                assert(l == k[k.len() - 1]);
            }
            let q = l.drop_last();
            assert(l =~= q + seq!['\n']);
            assert(k =~= p.push(l));
            lemma_concat_all_push(p, l);
            assert(out.drop_last() =~= concat_all(p) + q);
            assert(segs_form(p)) by {
                assert forall|i: int| 0 <= i < p.len() implies line_ok(#[trigger] p[i]) && (i < p.len() - 1
                    ==> terminated(p[i])) by {
                    assert(p[i] == k[i]);
                }
            }
            lemma_trim_newline(q);
            assert(!is_open(l)) by {
                assert(l == k[k.len() - 1]);
            }
            if q.len() == 0 {
                assert(concat_all(p) + q =~= concat_all(p));
                lemma_segments_of_concat(p);
                assert forall|i: int| 0 <= i < p.len() implies !is_open(#[trigger] p[i]) by {
                    assert(p[i] == k[i]);
                }
                lemma_open_free_segments(out.drop_last());
            } else {
                let k2 = p.push(q);
                lemma_concat_all_push(p, q);
                assert(line_ok(l)) by {
                    assert(l == k[k.len() - 1]);
                }
                assert(segs_form(k2)) by {
                    assert forall|i: int| 0 <= i < k2.len() implies line_ok(#[trigger] k2[i]) && (i < k2.len()
                        - 1 ==> terminated(k2[i])) by {
                        if i < p.len() {
                            assert(k2[i] == p[i]);
                        } else {
                            assert(k2[i] == q);
                            assert forall|j: int| 0 <= j < q.len() - 1 implies q[j] != '\n' by {
                                assert(q[j] == l[j]);
                            }
                        }
                    }
                }
                lemma_segments_of_concat(k2);
                assert forall|i: int| 0 <= i < k2.len() implies !is_open(#[trigger] k2[i]) by {
                    if i < p.len() {
                        assert(k2[i] == p[i]);
                        assert(p[i] == k[i]);
                    } else {
                        assert(k2[i] == q);
                    }
                }
                lemma_open_free_segments(out.drop_last());
            }
        } else {
            lemma_segments_of_concat(k);
            lemma_open_free_segments(out);
        }
    }
}

/// `reset` is idempotent: a second `reset` leaves the profile as the first
/// one left it.
pub proof fn lemma_reset_idempotent(c: Seq<char>)
    ensures
        removed_text(removed_text(c)) == removed_text(c),
{
    lemma_removed_open_free(c);
    lemma_open_free_scan(removed_text(c));
}

/// `reset` leaves a profile that holds no managed block as it is.
pub proof fn lemma_reset_keeps_unmarked(c: Seq<char>)
    requires
        !contains(c, marker()),
    ensures
        removed_text(c) == c,
{
    lemma_unmarked_open_free(c);
    lemma_open_free_scan(c);
}

/// `reset` after a first `init` gives back the profile as it was before,
/// byte for byte.
pub proof fn lemma_reset_undoes_first_init(c: Seq<char>, b: Seq<char>)
    requires
        !contains(c, marker()),
        block_ok(b),
    ensures
        removed_text(composed_text(c, b)) == c,
{
    lemma_block_scan(b);
    if c.len() > 0 {
        lemma_unmarked_open_free(c);
        lemma_append_then_remove(c, b);
    }
}

/// A newline-terminated text without an opening line keeps none once its
/// last newline is cut.
pub proof fn lemma_open_free_drop_newline(x: Seq<char>)
    requires
        open_free(x),
        x.len() > 0,
        x.last() == '\n',
    ensures
        open_free(x.drop_last()),
{
    let c = x.drop_last();
    lemma_pieces_len(c);
    assert(pieces(x) == pieces(c).push(Seq::<char>::empty()));
    assert forall|k: int| 0 <= k < pieces(c).len() implies !is_open(#[trigger] pieces(c)[k]) by {
        assert(pieces(x)[k] == pieces(c)[k]);
    }
}

/// Cutting the trailing newlines leaves a text that ends with no newline,
/// and no opening line where there was none.
pub proof fn lemma_trim_newlines_end(s: Seq<char>)
    ensures
        trim_newlines_end(s).len() == 0 || trim_newlines_end(s).last() != '\n',
        trim_newlines_end(trim_newlines_end(s) + seq!['\n']) == trim_newlines_end(s),
        open_free(s) ==> open_free(trim_newlines_end(s)),
    decreases s.len(),
{
    let t = trim_newlines_end(s);
    if s.len() > 0 && s.last() == '\n' {
        lemma_trim_newlines_end(s.drop_last());
        if open_free(s) {
            lemma_open_free_drop_newline(s);
        }
    }
    assert((t + seq!['\n']).drop_last() =~= t);
}

/// `reset` after a repeated `init` (a replacement of the block) gives what
/// `reset` gives for the profile before it, with its trailing newlines cut
/// down to one; nothing where only newlines are left.
pub proof fn lemma_reset_undoes_reinit(c: Seq<char>, b: Seq<char>)
    requires
        block_ok(b),
    ensures
        removed_text(replaced_text(c, b)) == (if trim_newlines_end(removed_text(c)).len() == 0 {
            Seq::<char>::empty()
        } else {
            trim_newlines_end(removed_text(c)) + seq!['\n']
        }),
{
    lemma_block_scan(b);
    lemma_removed_open_free(c);
    let t = trim_newlines_end(removed_text(c));
    lemma_trim_newlines_end(removed_text(c));
    if t.len() > 0 {
        let x = t + seq!['\n'];
        lemma_open_free_newline(t);
        lemma_append_then_remove(x, b);
        assert(t + seq!['\n', '\n'] + b =~= x + seq!['\n'] + b);
    }
}

/// Replacing the managed block twice with the same block gives what
/// replacing it once gives.
pub proof fn lemma_replace_idempotent(c: Seq<char>, b: Seq<char>)
    requires
        block_ok(b),
    ensures
        replaced_text(replaced_text(c, b), b) == replaced_text(c, b),
{
    lemma_reset_undoes_reinit(c, b);
    lemma_trim_newlines_end(removed_text(c));
    assert(trim_newlines_end(Seq::<char>::empty()) == Seq::<char>::empty());
}

/// `init` run again with the same block leaves the profile as the first run
/// left it, where the profile held a block already, was empty, or ended
/// with exactly one newline.
pub proof fn lemma_init_idempotent(c: Seq<char>, b: Seq<char>)
    requires
        block_ok(b),
        contains(c, marker()) || c.len() == 0 || (trim_newlines_end(c).len() > 0 && c
            == trim_newlines_end(c) + seq!['\n']),
    ensures
        composed_text(composed_text(c, b), b) == composed_text(c, b),
{
    lemma_init_one_marker_line(c, b);
    lemma_block_scan(b);
    assert(trim_newlines_end(Seq::<char>::empty()) == Seq::<char>::empty());
    if contains(c, marker()) {
        lemma_replace_idempotent(c, b);
    } else if c.len() > 0 {
        lemma_reset_undoes_first_init(c, b);
        let t = trim_newlines_end(c);
        assert(c + seq!['\n'] + b =~= t + seq!['\n', '\n'] + b);
    }
}

/// From the second run on, `init` changes nothing: a third run with the
/// same block writes what the second wrote.
pub proof fn lemma_init_settles(c: Seq<char>, b: Seq<char>)
    requires
        block_ok(b),
    ensures
        composed_text(composed_text(composed_text(c, b), b), b) == composed_text(composed_text(c, b), b),
{
    let p = composed_text(c, b);
    lemma_init_one_marker_line(c, b);
    lemma_init_one_marker_line(p, b);
    lemma_replace_idempotent(p, b);
}

/// After `init`, exactly one line of the profile reads as the opening
/// marker, and the profile names it: `init` never writes a second block.
pub proof fn lemma_init_one_marker_line(c: Seq<char>, b: Seq<char>)
    requires
        block_ok(b),
    ensures
        open_count(segments(composed_text(c, b))) == 1,
        contains(composed_text(c, b), marker()),
{
    lemma_block_scan(b);
    lemma_block_contains_marker(b);
    let p = composed_text(c, b);
    if contains(c, marker()) {
        lemma_removed_open_free(c);
        let t = trim_newlines_end(removed_text(c));
        lemma_trim_newlines_end(removed_text(c));
        if t.len() > 0 {
            lemma_open_free_newline(t);
            lemma_open_free_newline(t + seq!['\n']);
            let x = t + seq!['\n'] + seq!['\n'];
            assert(p == x + b);
            lemma_open_free_segments(x);
            lemma_segments_append(x, b);
            lemma_open_count_none(segments(x));
            lemma_open_count_concat(segments(x), segments(b));
            lemma_contains_in_suffix(x, b, marker());
        } else {
            assert(p == b);
        }
    } else if c.len() > 0 {
        lemma_unmarked_open_free(c);
        let x = c + seq!['\n'];
        assert(p == x + b);
        lemma_open_free_newline(c);
        lemma_open_free_segments(x);
        lemma_segments_append(x, b);
        lemma_open_count_none(segments(x));
        lemma_open_count_concat(segments(x), segments(b));
        lemma_contains_in_suffix(x, b, marker());
    } else {
        assert(p == b);
    }
}

/// A managed block around `inner`: the opening marker line, `inner`, the
/// closing marker line, each newline-terminated.
pub open spec fn managed_block(inner: Seq<char>) -> Seq<char> {
    marker() + seq!['\n'] + inner + seq!['\n'] + marker_end() + seq!['\n']
}

/// Opens the line that records where the executable lives.
pub const HOOK_EXE_PREFIX: &'static str = "$global:KukuExe = \"";

/// Closes the line that records where the executable lives.
pub const HOOK_EXE_SUFFIX: &'static str = "\"";

/// Remembers which history entry was last analysed.
pub const HOOK_HISTORY: &'static str = "$global:KukuLastHistoryId = -1";

/// Keeps the prompt that was there before, once.
pub const HOOK_SAVE_PROMPT: &'static str = "if (-not $global:KukuOriginalPrompt) { $global:KukuOriginalPrompt = $function:prompt }";

/// After a failed command, asks `assist` about it, then shows the old prompt.
pub const HOOK_PROMPT: &'static str = "function global:prompt { $kukuOk = $?; $kukuCode = $global:LASTEXITCODE; if (-not $kukuOk) { $h = Get-History -Count 1; if ($h -and $h.Id -ne $global:KukuLastHistoryId) { $global:KukuLastHistoryId = $h.Id; & $global:KukuExe assist --command $h.CommandLine --exit-code ([int]$kukuCode) } }; & $global:KukuOriginalPrompt }";

/// Ctrl+Shift+E puts the last suggestion on the command line.
pub const HOOK_KEY: &'static str = "Set-PSReadLineKeyHandler -Chord 'Ctrl+Shift+e' -ScriptBlock { $f = Join-Path ([System.IO.Path]::GetTempPath()) 'kaku_last_suggestion.txt'; if (Test-Path $f) { [Microsoft.PowerShell.PSConsoleReadLine]::RevertLine(); [Microsoft.PowerShell.PSConsoleReadLine]::Insert((Get-Content $f -Raw).Trim()) } }";

/// The line that records the executable's path `exe`.
pub open spec fn exe_line(exe: Seq<char>) -> Seq<char> {
    HOOK_EXE_PREFIX@ + exe + HOOK_EXE_SUFFIX@
}

/// The lines between the markers, for the executable at `exe`.
pub open spec fn block_body(exe: Seq<char>) -> Seq<char> {
    exe_line(exe) + seq!['\n'] + (HOOK_HISTORY@ + seq!['\n'] + (HOOK_SAVE_PROMPT@ + seq!['\n'] + (
    HOOK_PROMPT@ + seq!['\n'] + HOOK_KEY@)))
}

/// The managed block for the executable at `exe` (a path already escaped
/// for the double-quoted string it stands in).
pub fn profile_block(exe: &str) -> (r: String)
    ensures
        r@ == managed_block(block_body(exe@)),
{
    let mut v: Vec<char> = Vec::new();
    append_str(&mut v, PROFILE_MARKER);
    v.push('\n');
    append_str(&mut v, HOOK_EXE_PREFIX);
    append_str(&mut v, exe);
    append_str(&mut v, HOOK_EXE_SUFFIX);
    v.push('\n');
    append_str(&mut v, HOOK_HISTORY);
    v.push('\n');
    append_str(&mut v, HOOK_SAVE_PROMPT);
    v.push('\n');
    append_str(&mut v, HOOK_PROMPT);
    v.push('\n');
    append_str(&mut v, HOOK_KEY);
    v.push('\n');
    append_str(&mut v, PROFILE_MARKER_END);
    v.push('\n');
    assert(v@ =~= managed_block(block_body(exe@)));
    string_from_chars(v.as_slice())
}

proof fn lemma_hook_lines()
    ensures
        forall|k: int| 0 <= k < HOOK_EXE_PREFIX@.len() ==> HOOK_EXE_PREFIX@[k] != '\n',
        forall|k: int| 0 <= k < HOOK_EXE_SUFFIX@.len() ==> HOOK_EXE_SUFFIX@[k] != '\n',
        forall|k: int| 0 <= k < HOOK_HISTORY@.len() ==> HOOK_HISTORY@[k] != '\n',
        forall|k: int| 0 <= k < HOOK_SAVE_PROMPT@.len() ==> HOOK_SAVE_PROMPT@[k] != '\n',
        forall|k: int| 0 <= k < HOOK_PROMPT@.len() ==> HOOK_PROMPT@[k] != '\n',
        forall|k: int| 0 <= k < HOOK_KEY@.len() ==> HOOK_KEY@[k] != '\n',
        HOOK_EXE_PREFIX@.len() > 0 && HOOK_EXE_PREFIX@[0] == '$',
        HOOK_EXE_SUFFIX@ == seq!['"'],
        HOOK_HISTORY@.len() > 0 && HOOK_HISTORY@[0] == '$',
        HOOK_SAVE_PROMPT@.len() > 0 && HOOK_SAVE_PROMPT@[0] == 'i',
        HOOK_PROMPT@.len() > 0 && HOOK_PROMPT@[0] == 'f',
        HOOK_KEY@.len() > 0 && HOOK_KEY@[0] == 'S',
{
    reveal_strlit("$global:KukuExe = \"");
    reveal_strlit("\"");
    reveal_strlit("$global:KukuLastHistoryId = -1");
    reveal_strlit("if (-not $global:KukuOriginalPrompt) { $global:KukuOriginalPrompt = $function:prompt }");
    reveal_strlit("function global:prompt { $kukuOk = $?; $kukuCode = $global:LASTEXITCODE; if (-not $kukuOk) { $h = Get-History -Count 1; if ($h -and $h.Id -ne $global:KukuLastHistoryId) { $global:KukuLastHistoryId = $h.Id; & $global:KukuExe assist --command $h.CommandLine --exit-code ([int]$kukuCode) } }; & $global:KukuOriginalPrompt }");
    reveal_strlit("Set-PSReadLineKeyHandler -Chord 'Ctrl+Shift+e' -ScriptBlock { $f = Join-Path ([System.IO.Path]::GetTempPath()) 'kaku_last_suggestion.txt'; if (Test-Path $f) { [Microsoft.PowerShell.PSConsoleReadLine]::RevertLine(); [Microsoft.PowerShell.PSConsoleReadLine]::Insert((Get-Content $f -Raw).Trim()) } }");
    assert(HOOK_EXE_SUFFIX@ =~= seq!['"']);
}


/// A line that starts with neither whitespace nor `#` reads as no marker.
proof fn lemma_line_no_marker(x: Seq<char>)
    requires
        x.len() > 0,
        !is_ws(x[0]),
        x[0] != '#',
    ensures
        !is_open(x),
        !is_close(x),
{
    lemma_marker_facts();
    lemma_trim_first(x);
}

/// A managed block around lines of which none reads as a marker is well
/// formed.
pub proof fn lemma_managed_block_ok(inner: Seq<char>)
    requires
        forall|k: int|
            0 <= k < pieces(inner).len() ==> !is_open(#[trigger] pieces(inner)[k]) && !is_close(
                pieces(inner)[k],
            ),
    ensures
        block_ok(managed_block(inner)),
{
    lemma_marker_facts();
    lemma_segments_empty();
    lemma_pieces_len(inner);
    let m = marker();
    let e = marker_end();
    let z = Seq::<char>::empty();
    let f = |l: Seq<char>| l + seq!['\n'];
    let tail = e + seq!['\n'];
    let rest = inner + seq!['\n'] + tail;
    assert(managed_block(inner) =~= m + seq!['\n'] + rest);
    lemma_segments_concat(m, rest);
    lemma_segments_concat(inner, tail);
    assert(tail =~= e + seq!['\n'] + z);
    lemma_segments_concat(e, z);
    assert(seq![m].map_values(f) =~= seq![m + seq!['\n']]);
    assert(seq![e].map_values(f) =~= seq![e + seq!['\n']]);
    let mid = pieces(inner).map_values(f);
    let s = segments(managed_block(inner));
    assert(s =~= seq![m + seq!['\n']] + mid + seq![e + seq!['\n']]);
    lemma_trim_newline(m);
    lemma_trim_newline(e);
    assert(s[0] == m + seq!['\n']);
    assert(s.last() == e + seq!['\n']);
    assert forall|i: int| 0 < i < s.len() - 1 implies !is_open(#[trigger] s[i]) && !is_close(s[i]) by {
        assert(s[i] == mid[i - 1]);
        assert(mid[i - 1] == pieces(inner)[i - 1] + seq!['\n']);
        lemma_trim_newline(pieces(inner)[i - 1]);
    }
}

/// For an executable path without newlines, the block is well formed.
pub proof fn lemma_profile_block_ok(exe: Seq<char>)
    requires
        forall|k: int| 0 <= k < exe.len() ==> exe[k] != '\n',
    ensures
        block_ok(managed_block(block_body(exe))),
{
    lemma_hook_lines();
    let l1 = exe_line(exe);
    let h = HOOK_HISTORY@;
    let sp = HOOK_SAVE_PROMPT@;
    let pr = HOOK_PROMPT@;
    let ky = HOOK_KEY@;
    let pre = HOOK_EXE_PREFIX@;
    assert forall|k: int| 0 <= k < l1.len() implies l1[k] != '\n' by {
        if k < pre.len() {
            assert(l1[k] == pre[k]);
        } else if k < pre.len() + exe.len() {
            assert(l1[k] == exe[k - pre.len()]);
        } else {
            assert(l1[k] == HOOK_EXE_SUFFIX@[k - pre.len() - exe.len()]);
        }
    }
    assert(l1[0] == '$');
    lemma_pieces_single(l1);
    lemma_pieces_single(h);
    lemma_pieces_single(sp);
    lemma_pieces_single(pr);
    lemma_pieces_single(ky);
    let r3 = pr + seq!['\n'] + ky;
    let r2 = sp + seq!['\n'] + r3;
    let r1 = h + seq!['\n'] + r2;
    lemma_pieces_concat(pr, ky);
    lemma_pieces_concat(sp, r3);
    lemma_pieces_concat(h, r2);
    lemma_pieces_concat(l1, r1);
    let ps = pieces(block_body(exe));
    assert(ps =~= seq![l1, h, sp, pr, ky]);
    lemma_line_no_marker(l1);
    lemma_line_no_marker(h);
    lemma_line_no_marker(sp);
    lemma_line_no_marker(pr);
    lemma_line_no_marker(ky);
    assert forall|k: int| 0 <= k < ps.len() implies !is_open(#[trigger] ps[k]) && !is_close(ps[k]) by {
        if k == 0 {
            assert(ps[k] == l1);
        } else if k == 1 {
            assert(ps[k] == h);
        } else if k == 2 {
            assert(ps[k] == sp);
        } else if k == 3 {
            assert(ps[k] == pr);
        } else {
            assert(ps[k] == ky);
        }
    }
    lemma_managed_block_ok(block_body(exe));
}

/// The block that `init` writes, for an executable path without newlines
/// once its backslashes are doubled, is well formed, so the laws above hold
/// of it.
pub proof fn lemma_init_block_ok(exe: Seq<char>)
    requires
        forall|k: int| 0 <= k < exe.len() ==> exe[k] != '\n',
    ensures
        block_ok(managed_block(block_body(escape_backslashes(exe)))),
{
    lemma_escape_no_newline(exe);
    lemma_profile_block_ok(escape_backslashes(exe));
}

/// The lines of the block for an executable path without newlines are, in
/// order: the opening marker, the line that records the executable, the
/// history line, the line that keeps the old prompt, the prompt hook, the
/// Ctrl+Shift+E key handler and the closing marker, the last one ended by a
/// newline.
pub proof fn lemma_profile_block_lines(exe: Seq<char>)
    requires
        forall|k: int| 0 <= k < exe.len() ==> exe[k] != '\n',
    ensures
        pieces(managed_block(block_body(exe))) == seq![
            PROFILE_MARKER@,
            HOOK_EXE_PREFIX@ + exe + HOOK_EXE_SUFFIX@,
            HOOK_HISTORY@,
            HOOK_SAVE_PROMPT@,
            HOOK_PROMPT@,
            HOOK_KEY@,
            PROFILE_MARKER_END@,
            Seq::<char>::empty(),
        ],
{
    lemma_hook_lines();
    lemma_marker_facts();
    lemma_segments_empty();
    let l1 = exe_line(exe);
    let h = HOOK_HISTORY@;
    let sp = HOOK_SAVE_PROMPT@;
    let pr = HOOK_PROMPT@;
    let ky = HOOK_KEY@;
    let pre = HOOK_EXE_PREFIX@;
    assert forall|k: int| 0 <= k < l1.len() implies l1[k] != '\n' by {
        if k < pre.len() {
            assert(l1[k] == pre[k]);
        } else if k < pre.len() + exe.len() {
            assert(l1[k] == exe[k - pre.len()]);
        } else {
            assert(l1[k] == HOOK_EXE_SUFFIX@[k - pre.len() - exe.len()]);
        }
    }
    lemma_pieces_single(l1);
    lemma_pieces_single(h);
    lemma_pieces_single(sp);
    lemma_pieces_single(pr);
    lemma_pieces_single(ky);
    let r3 = pr + seq!['\n'] + ky;
    let r2 = sp + seq!['\n'] + r3;
    let r1 = h + seq!['\n'] + r2;
    lemma_pieces_concat(pr, ky);
    lemma_pieces_concat(sp, r3);
    lemma_pieces_concat(h, r2);
    lemma_pieces_concat(l1, r1);
    let body = block_body(exe);
    assert(pieces(body) =~= seq![l1, h, sp, pr, ky]);
    let m = marker();
    let e = marker_end();
    let z = Seq::<char>::empty();
    let tail = e + seq!['\n'] + z;
    let rest = body + seq!['\n'] + tail;
    assert(managed_block(body) =~= m + seq!['\n'] + rest);
    lemma_pieces_concat(m, rest);
    lemma_pieces_concat(body, tail);
    lemma_pieces_concat(e, z);
    assert(pieces(managed_block(body)) =~= seq![m, l1, h, sp, pr, ky, e, z]);
}

/// The key-handler line binds Ctrl+Shift+E and reads the last suggestion
/// from `kaku_last_suggestion.txt` in the temporary directory.
pub proof fn lemma_key_handler_text()
    ensures
        HOOK_KEY@.take(46) == "Set-PSReadLineKeyHandler -Chord 'Ctrl+Shift+e'"@,
        contains(HOOK_KEY@, "'kaku_last_suggestion.txt'"@),
{
    reveal_strlit("Set-PSReadLineKeyHandler -Chord 'Ctrl+Shift+e' -ScriptBlock { $f = Join-Path ([System.IO.Path]::GetTempPath()) 'kaku_last_suggestion.txt'; if (Test-Path $f) { [Microsoft.PowerShell.PSConsoleReadLine]::RevertLine(); [Microsoft.PowerShell.PSConsoleReadLine]::Insert((Get-Content $f -Raw).Trim()) } }");
    reveal_strlit("Set-PSReadLineKeyHandler -Chord 'Ctrl+Shift+e'");
    reveal_strlit("'kaku_last_suggestion.txt'");
    let t = "'kaku_last_suggestion.txt'"@;
    let i: int = 111;
    assert(HOOK_KEY@.subrange(i, i + t.len()) =~= t);
    assert(HOOK_KEY@.take(46) =~= "Set-PSReadLineKeyHandler -Chord 'Ctrl+Shift+e'"@);
}

} // verus!
