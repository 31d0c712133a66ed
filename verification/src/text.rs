//! Character-level text model: whitespace, trimming, line splitting,
//! substring search and small builders, each tied to a spec function.
use vstd::prelude::*;

verus! {

/// Unicode `White_Space`, the property that `char::is_whitespace` tests.
pub open spec fn is_ws(c: char) -> bool {
    let u = c as u32;
    ||| (9 <= u <= 13)
    ||| u == 32
    ||| u == 0x85
    ||| u == 0xA0
    ||| u == 0x1680
    ||| (0x2000 <= u <= 0x200A)
    ||| u == 0x2028
    ||| u == 0x2029
    ||| u == 0x202F
    ||| u == 0x205F
    ||| u == 0x3000
}

/// `s` without its leading whitespace.
pub open spec fn trim_start(s: Seq<char>) -> Seq<char>
    decreases s.len(),
{
    if s.len() > 0 && is_ws(s[0]) {
        trim_start(s.drop_first())
    } else {
        s
    }
}

/// `s` without its trailing whitespace.
pub open spec fn trim_end(s: Seq<char>) -> Seq<char>
    decreases s.len(),
{
    if s.len() > 0 && is_ws(s.last()) {
        trim_end(s.drop_last())
    } else {
        s
    }
}

/// `s` without whitespace at either end (what `str::trim` returns).
pub open spec fn trim(s: Seq<char>) -> Seq<char> {
    trim_end(trim_start(s))
}

/// Appends one character to a string (std's `String::push`).
/// Trusted: the string afterwards is the old one followed by `c`.
#[verifier::external_body]
pub(crate) fn push_char(s: &mut String, c: char)
    ensures
        final(s)@ == old(s)@.push(c),
{
    s.push(c);
}

/// Whether `c` is whitespace.
pub fn is_whitespace_char(c: char) -> (r: bool)
    ensures
        r == is_ws(c),
{
    let u = c as u32;
    (9 <= u && u <= 13) || u == 32 || u == 0x85 || u == 0xA0 || u == 0x1680 || (0x2000 <= u
        && u <= 0x200A) || u == 0x2028 || u == 0x2029 || u == 0x202F || u == 0x205F || u == 0x3000
}

/// The characters of `s`, in order.
pub(crate) fn chars_of(s: &str) -> (v: Vec<char>)
    ensures
        v@ == s@,
{
    let mut v: Vec<char> = Vec::new();
    for c in it: s.chars()
        invariant
            v@ == it.seq().take(it.index() as int),
    {
        v.push(c);
    }
    v
}

/// A string holding the characters `v[from..to]`.
pub(crate) fn string_from_range(v: &[char], from: usize, to: usize) -> (s: String)
    requires
        from <= to <= v@.len(),
    ensures
        s@ == v@.subrange(from as int, to as int),
{
    let mut s = String::new();
    let mut i = from;
    while i < to
        invariant
            from <= i <= to <= v@.len(),
            s@ == v@.subrange(from as int, i as int),
        decreases to - i,
    {
        push_char(&mut s, v[i]);
        i = i + 1;
        assert(s@ =~= v@.subrange(from as int, i as int));
    }
    s
}

/// A string holding the characters of `v`.
pub(crate) fn string_from_chars(v: &[char]) -> (s: String)
    ensures
        s@ == v@,
{
    let s = string_from_range(v, 0, v.len());
    assert(v@.subrange(0, v@.len() as int) =~= v@);
    s
}

proof fn lemma_trim_start_skip(s: Seq<char>, i: int)
    requires
        0 <= i <= s.len(),
        forall|k: int| 0 <= k < i ==> is_ws(#[trigger] s[k]),
        i == s.len() || !is_ws(s[i]),
    ensures
        trim_start(s) == s.skip(i),
    decreases i,
{
    if i == 0 {
        assert(s.skip(0) =~= s);
    } else {
        let t = s.drop_first();
        assert forall|k: int| 0 <= k < i - 1 implies is_ws(#[trigger] t[k]) by {
            assert(t[k] == s[k + 1]);
        }
        if i - 1 < t.len() {
            assert(t[i - 1] == s[i]);
        }
        lemma_trim_start_skip(t, i - 1);
        assert(t.skip(i - 1) =~= s.skip(i));
    }
}

proof fn lemma_trim_end_take(s: Seq<char>, j: int)
    requires
        0 <= j <= s.len(),
        forall|k: int| j <= k < s.len() ==> is_ws(#[trigger] s[k]),
        j == 0 || !is_ws(s[j - 1]),
    ensures
        trim_end(s) == s.take(j),
    decreases s.len() - j,
{
    if j == s.len() {
        assert(s.take(j) =~= s);
    } else {
        let t = s.drop_last();
        assert forall|k: int| j <= k < t.len() implies is_ws(#[trigger] t[k]) by {
            assert(t[k] == s[k]);
        }
        if j > 0 {
            assert(t[j - 1] == s[j - 1]);
        }
        lemma_trim_end_take(t, j);
        assert(t.take(j) =~= s.take(j));
    }
}

/// Bounds `(i, j)` such that `v[i..j]` is `v` trimmed.
pub(crate) fn trim_bounds(v: &[char]) -> (r: (usize, usize))
    ensures
        r.0 <= r.1 <= v@.len(),
        v@.subrange(r.0 as int, r.1 as int) == trim(v@),
{
    let n = v.len();
    let mut i: usize = 0;
    while i < n && is_whitespace_char(v[i])
        invariant
            i <= n == v@.len(),
            forall|k: int| 0 <= k < i ==> is_ws(#[trigger] v@[k]),
        decreases n - i,
    {
        i = i + 1;
    }
    proof {
        lemma_trim_start_skip(v@, i as int);
    }
    let mut j: usize = n;
    while j > i && is_whitespace_char(v[j - 1])
        invariant
            i <= j <= n == v@.len(),
            forall|k: int| j <= k < n ==> is_ws(#[trigger] v@[k]),
        decreases j - i,
    {
        j = j - 1;
    }
    proof {
        let t = v@.skip(i as int);
        let jj = j - i;
        assert forall|k: int| jj <= k < t.len() implies is_ws(#[trigger] t[k]) by {
            assert(t[k] == v@[k + i]);
        }
        if jj > 0 {
            assert(t[jj - 1] == v@[j - 1]);
        }
        lemma_trim_end_take(t, jj);
        assert(t.take(jj) =~= v@.subrange(i as int, j as int));
    }
    (i, j)
}

/// `s` trimmed of whitespace at both ends.
pub fn trim_str(s: &str) -> (r: String)
    ensures
        r@ == trim(s@),
{
    let v = chars_of(s);
    let (i, j) = trim_bounds(v.as_slice());
    string_from_range(v.as_slice(), i, j)
}


/// The pieces of `s` between newlines (what `str::split('\n')` yields):
/// always one more piece than `s` has newline characters.
pub open spec fn pieces(s: Seq<char>) -> Seq<Seq<char>>
    decreases s.len(),
{
    if s.len() == 0 {
        seq![Seq::<char>::empty()]
    } else {
        let p = pieces(s.drop_last());
        if s.last() == '\n' {
            p.push(Seq::<char>::empty())
        } else {
            p.update(p.len() - 1, p.last().push(s.last()))
        }
    }
}

/// `l` without one trailing carriage return.
pub open spec fn strip_cr(l: Seq<char>) -> Seq<char> {
    if l.len() > 0 && l.last() == '\r' {
        l.drop_last()
    } else {
        l
    }
}

/// The lines of `s`, as `str::lines` yields them: the pieces between
/// newlines, each newline-terminated one without a final `'\r'`, and the
/// last piece only where it is not empty.
pub open spec fn lines(s: Seq<char>) -> Seq<Seq<char>> {
    let p = pieces(s);
    let n = p.len() as int;
    p.take(n - 1).map_values(|l: Seq<char>| strip_cr(l)) + (if p[n - 1].len() == 0 {
        Seq::<Seq<char>>::empty()
    } else {
        seq![p[n - 1]]
    })
}

pub proof fn lemma_pieces_len(s: Seq<char>)
    ensures
        pieces(s).len() >= 1,
    decreases s.len(),
{
    if s.len() > 0 {
        lemma_pieces_len(s.drop_last());
    }
}

/// The lines of `v`, each as a vector of characters.
pub(crate) fn lines_of(v: &[char]) -> (out: Vec<Vec<char>>)
    ensures
        out@.len() == lines(v@).len(),
        forall|k: int| 0 <= k < out@.len() ==> (#[trigger] out@[k])@ == lines(v@)[k],
{
    let n = v.len();
    let mut out: Vec<Vec<char>> = Vec::new();
    let mut cur: Vec<char> = Vec::new();
    let mut i: usize = 0;
    proof {
        assert(v@.take(0) =~= Seq::<char>::empty());
    }
    while i < n
        invariant
            i <= n == v@.len(),
            ({
                let p = pieces(v@.take(i as int));
                &&& p.len() >= 1
                &&& out@.len() == p.len() - 1
                &&& forall|k: int| 0 <= k < out@.len() ==> (#[trigger] out@[k])@ == strip_cr(p[k])
                &&& cur@ == p.last()
            }),
        decreases n - i,
    {
        let c = v[i];
        let ghost prev = pieces(v@.take(i as int));
        proof {
            assert(v@.take(i + 1).drop_last() =~= v@.take(i as int));
            lemma_pieces_len(v@.take(i + 1));
        }
        if c == '\n' {
            let mut line = cur;
            let len = line.len();
            if len > 0 && line[len - 1] == '\r' {
                line.pop();
                assert(line@ =~= strip_cr(prev.last()));
            }
            out.push(line);
            cur = Vec::new();
            assert(cur@ =~= Seq::<char>::empty());
        } else {
            cur.push(c);
        }
        i = i + 1;
    }
    proof {
        assert(v@.take(n as int) =~= v@);
    }
    let ghost p = pieces(v@);
    if cur.len() > 0 {
        out.push(cur);
    }
    assert forall|k: int| 0 <= k < out@.len() implies (#[trigger] out@[k])@ == lines(v@)[k] by {
        if k < p.len() - 1 {
            assert(lines(v@)[k] == p.take(p.len() - 1).map_values(|l: Seq<char>| strip_cr(l))[k]);
        }
    }
    out
}


/// Whether `v[from..to]` equals `w`.
pub(crate) fn range_equals(v: &[char], from: usize, to: usize, w: &[char]) -> (r: bool)
    requires
        from <= to <= v@.len(),
    ensures
        r == (v@.subrange(from as int, to as int) == w@),
{
    if to - from != w.len() {
        return false;
    }
    let mut k: usize = 0;
    while k < w.len()
        invariant
            from <= to <= v@.len(),
            to - from == w@.len(),
            k <= w@.len(),
            forall|t: int| 0 <= t < k ==> v@[from + t] == w@[t],
        decreases w@.len() - k,
    {
        if v[from + k] != w[k] {
            assert(v@.subrange(from as int, to as int)[k as int] != w@[k as int]);
            return false;
        }
        k = k + 1;
    }
    assert(v@.subrange(from as int, to as int) =~= w@);
    true
}

/// Appends the characters of `src` to `dst`.
pub(crate) fn append_chars(dst: &mut Vec<char>, src: &[char])
    ensures
        final(dst)@ == old(dst)@ + src@,
{
    let mut k: usize = 0;
    while k < src.len()
        invariant
            k <= src@.len(),
            dst@ == old(dst)@ + src@.take(k as int),
        decreases src@.len() - k,
    {
        dst.push(src[k]);
        k = k + 1;
        assert(dst@ =~= old(dst)@ + src@.take(k as int));
    }
    assert(src@.take(src@.len() as int) =~= src@);
}

/// Appends the characters of `src` to `dst`.
pub(crate) fn append_str(dst: &mut Vec<char>, src: &str)
    ensures
        final(dst)@ == old(dst)@ + src@,
{
    let v = chars_of(src);
    append_chars(dst, v.as_slice());
}


/// Whether `t` occurs in `s` as a contiguous run.
pub open spec fn contains(s: Seq<char>, t: Seq<char>) -> bool {
    exists|i: int| 0 <= i <= s.len() - t.len() && #[trigger] s.subrange(i, i + t.len()) == t
}

/// Whether `needle` occurs in `hay` (what `str::contains` with a string
/// pattern answers).
pub fn contains_str(hay: &str, needle: &str) -> (r: bool)
    ensures
        r == contains(hay@, needle@),
{
    let h = chars_of(hay);
    let n = chars_of(needle);
    if n.len() > h.len() {
        return false;
    }
    let hl = h.len();
    let nl = n.len();
    let last = hl - nl;
    let mut i: usize = 0;
    loop
        invariant
            hl == h@.len(),
            nl == n@.len(),
            last == h@.len() - n@.len(),
            h@ == hay@,
            n@ == needle@,
            i <= last,
            n@.len() <= h@.len(),
            forall|j: int| 0 <= j < i ==> #[trigger] h@.subrange(j, j + n@.len()) != n@,
        ensures
            forall|j: int| 0 <= j <= last ==> #[trigger] h@.subrange(j, j + n@.len()) != n@,
        decreases last - i,
    {
        if range_equals(h.as_slice(), i, i + nl, n.as_slice()) {
            assert(hay@.subrange(i as int, i + needle@.len()) == needle@);
            return true;
        }
        if i == last {
            break;
        }
        i = i + 1;
    }
    false
}

pub proof fn lemma_contains_subrange(s: Seq<char>, i: int, j: int)
    requires
        0 <= i <= j <= s.len(),
    ensures
        contains(s, s.subrange(i, j)),
{
    assert(s.subrange(i, i + s.subrange(i, j).len()) == s.subrange(i, j));
}

pub proof fn lemma_contains_trans(a: Seq<char>, b: Seq<char>, c: Seq<char>)
    requires
        contains(a, b),
        contains(b, c),
    ensures
        contains(a, c),
{
    let i = choose|i: int| 0 <= i <= a.len() - b.len() && #[trigger] a.subrange(i, i + b.len()) == b;
    let j = choose|j: int| 0 <= j <= b.len() - c.len() && #[trigger] b.subrange(j, j + c.len()) == c;
    assert(a.subrange(i + j, i + j + c.len()) =~= c);
}

pub proof fn lemma_contains_in_suffix(x: Seq<char>, b: Seq<char>, c: Seq<char>)
    requires
        contains(b, c),
    ensures
        contains(x + b, c),
{
    let j = choose|j: int| 0 <= j <= b.len() - c.len() && #[trigger] b.subrange(j, j + c.len()) == c;
    assert((x + b).subrange(x.len() + j, x.len() + j + c.len()) =~= c);
}

pub proof fn lemma_trim_contained(x: Seq<char>)
    ensures
        contains(x, trim(x)),
{
    let i = first_non_ws(x);
    lemma_trim_start_skip(x, i);
    let t = x.skip(i);
    let j = end_of_non_ws(t);
    lemma_trim_end_take(t, j);
    assert(t.take(j) =~= x.subrange(i, i + j));
    lemma_contains_subrange(x, i, i + j);
}

/// A text that starts with a non-whitespace character keeps it first once
/// trimmed.
pub proof fn lemma_trim_first(x: Seq<char>)
    requires
        x.len() > 0,
        !is_ws(x[0]),
    ensures
        trim(x).len() > 0,
        trim(x)[0] == x[0],
{
    assert(trim_start(x) == x);
    let j = end_of_non_ws(x);
    lemma_trim_end_take(x, j);
    if j == 0 {
        assert(is_ws(x[0]));
    }
}

/// Whitespace at the end of a text does not change it once trimmed.
pub proof fn lemma_trim_drop_ws_last(x: Seq<char>)
    requires
        x.len() > 0,
        is_ws(x.last()),
    ensures
        trim(x.drop_last()) == trim(x),
{
    let i = first_non_ws(x);
    let t = x.drop_last();
    if i == x.len() {
        lemma_trim_start_skip(x, i);
        assert forall|k: int| 0 <= k < t.len() implies is_ws(#[trigger] t[k]) by {
            assert(t[k] == x[k]);
        }
        lemma_trim_start_skip(t, t.len() as int);
        assert(x.skip(i) =~= Seq::<char>::empty());
        assert(t.skip(t.len() as int) =~= Seq::<char>::empty());
    } else {
        assert(i < x.len() - 1);
        lemma_trim_start_skip(x, i);
        assert forall|k: int| 0 <= k < i implies is_ws(#[trigger] t[k]) by {
            assert(t[k] == x[k]);
        }
        assert(t[i] == x[i]);
        lemma_trim_start_skip(t, i);
        let s = x.skip(i);
        assert(s.last() == x.last());
        assert(s.drop_last() =~= t.skip(i));
    }
}

/// The position of the first non-whitespace character of `x` (its length
/// where there is none).
proof fn first_non_ws(x: Seq<char>) -> (i: int)
    ensures
        0 <= i <= x.len(),
        forall|k: int| 0 <= k < i ==> is_ws(#[trigger] x[k]),
        i == x.len() || !is_ws(x[i]),
    decreases x.len(),
{
    if x.len() == 0 || !is_ws(x[0]) {
        0
    } else {
        let t = x.drop_first();
        let i = first_non_ws(t);
        assert forall|k: int| 0 <= k < i + 1 implies is_ws(#[trigger] x[k]) by {
            if k > 0 {
                assert(x[k] == t[k - 1]);
            }
        }
        if i < t.len() {
            assert(x[i + 1] == t[i]);
        }
        i + 1
    }
}

/// The position just after the last non-whitespace character of `x` (zero
/// where there is none).
proof fn end_of_non_ws(x: Seq<char>) -> (j: int)
    ensures
        0 <= j <= x.len(),
        forall|k: int| j <= k < x.len() ==> is_ws(#[trigger] x[k]),
        j == 0 || !is_ws(x[j - 1]),
    decreases x.len(),
{
    if x.len() == 0 || !is_ws(x.last()) {
        x.len() as int
    } else {
        let t = x.drop_last();
        let j = end_of_non_ws(t);
        assert forall|k: int| j <= k < x.len() implies is_ws(#[trigger] x[k]) by {
            if k < t.len() {
                assert(x[k] == t[k]);
            }
        }
        if j > 0 {
            assert(x[j - 1] == t[j - 1]);
        }
        j
    }
}

pub proof fn lemma_pieces_concat(a: Seq<char>, b: Seq<char>)
    ensures
        pieces(a + seq!['\n'] + b) == pieces(a) + pieces(b),
    decreases b.len(),
{
    let s = a + seq!['\n'] + b;
    if b.len() == 0 {
        assert(s.drop_last() =~= a);
        assert(pieces(s) =~= pieces(a) + pieces(b));
    } else {
        assert(s.drop_last() =~= a + seq!['\n'] + b.drop_last());
        lemma_pieces_concat(a, b.drop_last());
        lemma_pieces_len(b.drop_last());
        lemma_pieces_len(a);
        let q = pieces(b.drop_last());
        let p = pieces(a) + q;
        if b.last() == '\n' {
            assert(pieces(s) =~= pieces(a) + pieces(b));
        } else {
            assert(p.last() == q.last());
            assert(pieces(s) =~= pieces(a) + pieces(b));
        }
    }
}

pub proof fn lemma_pieces_single(a: Seq<char>)
    requires
        forall|k: int| 0 <= k < a.len() ==> a[k] != '\n',
    ensures
        pieces(a) == seq![a],
    decreases a.len(),
{
    if a.len() == 0 {
        assert(a =~= Seq::<char>::empty());
        assert(pieces(a) =~= seq![a]);
    } else {
        let t = a.drop_last();
        assert forall|k: int| 0 <= k < t.len() implies t[k] != '\n' by {
            assert(t[k] == a[k]);
        }
        lemma_pieces_single(t);
        assert(a.drop_last() == t);
        let p = pieces(t);
        assert(p.len() == 1 && p.last() == t);
        assert(pieces(a) == p.update(0, t.push(a.last())));
        assert(t.push(a.last()) =~= a);
        assert(pieces(a) =~= seq![a]);
    }
}

pub proof fn lemma_pieces_facts(s: Seq<char>)
    ensures
        pieces(s).len() >= 1,
        forall|k: int, j: int|
            0 <= k < pieces(s).len() && 0 <= j < pieces(s)[k].len() ==> #[trigger] pieces(s)[k][j]
                != '\n',
        forall|k: int| 0 <= k < pieces(s).len() ==> contains(s, #[trigger] pieces(s)[k]),
        pieces(s).last() == s.skip(s.len() - pieces(s).last().len()),
        s.len() > 0 && s.last() == '\n' ==> pieces(s).last().len() == 0,
        s.len() > 0 && s.last() != '\n' ==> pieces(s).last().len() > 0 && pieces(s).last().last()
            == s.last(),
    decreases s.len(),
{
    if s.len() == 0 {
        assert(s.skip(0) =~= Seq::<char>::empty());
        assert(s.subrange(0int, 0int + 0int) =~= Seq::<char>::empty());
    } else {
        let t = s.drop_last();
        lemma_pieces_facts(t);
        let p = pieces(t);
        let ps = pieces(s);
        let c = s.last();
        assert(t =~= s.subrange(0, s.len() - 1));
        lemma_contains_subrange(s, 0, s.len() - 1);
        if c == '\n' {
            assert(ps == p.push(Seq::<char>::empty()));
            assert(s.skip(s.len() as int) =~= ps.last());
        } else {
            assert(ps == p.update(p.len() - 1, p.last().push(c)));
            assert(s.skip(s.len() - ps.last().len()) =~= t.skip(t.len() - p.last().len()).push(c));
        }
        let lastk = ps.len() - 1;
        assert forall|k: int| 0 <= k < ps.len() implies contains(s, #[trigger] ps[k]) by {
            if k < lastk {
                assert(ps[k] == p[k]);
                lemma_contains_trans(s, t, p[k]);
            } else {
                assert(s.subrange(s.len() - ps[k].len(), s.len() - ps[k].len() + ps[k].len()) =~= ps[k]);
            }
        }
        assert forall|k: int, j: int| 0 <= k < ps.len() && 0 <= j < ps[k].len() implies #[trigger] ps[k][j] != '\n' by {
            if k < lastk {
                assert(ps[k] == p[k]);
            } else if c != '\n' {
                if j < ps[k].len() - 1 {
                    assert(ps[k][j] == p.last()[j]);
                }
            }
        }
    }
}


/// `s` with every backslash doubled.
pub open spec fn escape_backslashes(s: Seq<char>) -> Seq<char>
    decreases s.len(),
{
    if s.len() == 0 {
        Seq::empty()
    } else if s.last() == '\\' {
        escape_backslashes(s.drop_last()) + seq!['\\', '\\']
    } else {
        escape_backslashes(s.drop_last()).push(s.last())
    }
}

/// `s` with every backslash doubled (what `s.replace('\\', "\\\\")` gives).
pub fn escape_backslashes_str(s: &str) -> (r: String)
    ensures
        r@ == escape_backslashes(s@),
{
    let v = chars_of(s);
    let mut out: Vec<char> = Vec::new();
    let mut i: usize = 0;
    while i < v.len()
        invariant
            i <= v@.len(),
            v@ == s@,
            out@ == escape_backslashes(v@.take(i as int)),
        decreases v@.len() - i,
    {
        assert(v@.take(i + 1).drop_last() =~= v@.take(i as int));
        if v[i] == '\\' {
            out.push('\\');
            out.push('\\');
            assert(out@ =~= escape_backslashes(v@.take(i + 1)));
        } else {
            out.push(v[i]);
        }
        i = i + 1;
    }
    assert(v@.take(v@.len() as int) =~= v@);
    string_from_chars(out.as_slice())
}

/// Escaping adds no newline where there was none.
pub proof fn lemma_escape_no_newline(s: Seq<char>)
    requires
        forall|k: int| 0 <= k < s.len() ==> s[k] != '\n',
    ensures
        forall|k: int| 0 <= k < escape_backslashes(s).len() ==> escape_backslashes(s)[k] != '\n',
    decreases s.len(),
{
    if s.len() > 0 {
        let t = s.drop_last();
        assert forall|k: int| 0 <= k < t.len() implies t[k] != '\n' by {
            assert(t[k] == s[k]);
        }
        lemma_escape_no_newline(t);
        let et = escape_backslashes(t);
        let es = escape_backslashes(s);
        assert forall|k: int| 0 <= k < es.len() implies es[k] != '\n' by {
            if k < et.len() {
                assert(es[k] == et[k]);
            } else {
                assert(s[s.len() - 1] == s.last());
            }
        }
    }
}

/// `s` with ASCII capitals turned into small letters (what
/// `str::to_ascii_lowercase` gives).
pub open spec fn ascii_lower(s: Seq<char>) -> Seq<char> {
    s.map_values(|c: char| lower_char(c))
}

pub open spec fn lower_char(c: char) -> char {
    if 65 <= (c as u32) <= 90 {
        (((c as u32) + 32) as u8) as char
    } else {
        c
    }
}

/// The characters of `v[from..to]` in ASCII lower case.
pub(crate) fn ascii_lower_range(v: &[char], from: usize, to: usize) -> (r: Vec<char>)
    requires
        from <= to <= v@.len(),
    ensures
        r@ == ascii_lower(v@.subrange(from as int, to as int)),
{
    let mut out: Vec<char> = Vec::new();
    let mut i = from;
    while i < to
        invariant
            from <= i <= to <= v@.len(),
            out@ == ascii_lower(v@.subrange(from as int, i as int)),
        decreases to - i,
    {
        let c = v[i];
        let u = c as u32;
        let l = if 65 <= u && u <= 90 {
            ((u as u8) + 32) as char
        } else {
            c
        };
        out.push(l);
        i = i + 1;
        assert(out@ =~= ascii_lower(v@.subrange(from as int, i as int)));
    }
    out
}


/// The position of the first `c` in `s`; the length of `s` where there is
/// none.
pub open spec fn index_of(s: Seq<char>, c: char) -> int
    decreases s.len(),
{
    if s.len() == 0 {
        0
    } else {
        let p = index_of(s.drop_last(), c);
        if p < s.len() - 1 {
            p
        } else if s.last() == c {
            s.len() - 1
        } else {
            s.len() as int
        }
    }
}

pub proof fn lemma_index_of(s: Seq<char>, c: char)
    ensures
        0 <= index_of(s, c) <= s.len(),
        forall|k: int| 0 <= k < index_of(s, c) ==> s[k] != c,
        index_of(s, c) < s.len() ==> s[index_of(s, c)] == c,
    decreases s.len(),
{
    if s.len() > 0 {
        let t = s.drop_last();
        lemma_index_of(t, c);
        assert forall|k: int| 0 <= k < index_of(s, c) implies s[k] != c by {
            if k < t.len() {
                assert(s[k] == t[k]);
            }
        }
    }
}

/// The position of the first `c` in `v`; its length where there is none.
pub(crate) fn find_char(v: &[char], c: char) -> (r: usize)
    ensures
        r == index_of(v@, c),
{
    let mut i: usize = 0;
    while i < v.len() && v[i] != c
        invariant
            i <= v@.len(),
            forall|k: int| 0 <= k < i ==> v@[k] != c,
        decreases v@.len() - i,
    {
        i = i + 1;
    }
    proof {
        lemma_index_of(v@, c);
        let p = index_of(v@, c);
        if p < i {
            assert(v@[p] == c);
        }
        if i < p {
            assert(v@[i as int] != c);
        }
    }
    i
}

/// `parts` joined with `sep` between each two.
pub open spec fn join_with(parts: Seq<Seq<char>>, sep: Seq<char>) -> Seq<char>
    decreases parts.len(),
{
    if parts.len() == 0 {
        Seq::empty()
    } else if parts.len() == 1 {
        parts[0]
    } else {
        join_with(parts.drop_last(), sep) + sep + parts.last()
    }
}

/// The views of a list of strings.
pub open spec fn string_views(v: Seq<String>) -> Seq<Seq<char>> {
    v.map_values(|s: String| s@)
}

/// The strings of `parts` joined with `sep` (what `[..].join(sep)` gives).
pub(crate) fn join_strings(parts: &Vec<String>, sep: &str) -> (r: String)
    ensures
        r@ == join_with(string_views(parts@), sep@),
{
    let mut out: Vec<char> = Vec::new();
    let mut i: usize = 0;
    let ghost views = string_views(parts@);
    while i < parts.len()
        invariant
            i <= parts@.len(),
            views == string_views(parts@),
            out@ == join_with(views.take(i as int), sep@),
        decreases parts@.len() - i,
    {
        assert(views.take(i + 1).drop_last() =~= views.take(i as int));
        assert(views.take(i + 1).last() == parts@[i as int]@);
        if i > 0 {
            append_str(&mut out, sep);
        }
        append_str(&mut out, parts[i].as_str());
        if i == 0 {
            assert(out@ =~= join_with(views.take(1), sep@));
        }
        i = i + 1;
    }
    assert(views.take(parts@.len() as int) =~= views);
    string_from_chars(out.as_slice())
}


/// The decimal digit for `d` (below ten).
pub open spec fn digit_char(d: nat) -> char {
    ((d + 48) as u8) as char
}

/// The decimal digits of `n`, without leading zeros (`0` for zero).
pub open spec fn decimal_digits(n: nat) -> Seq<char>
    decreases n,
{
    if n < 10 {
        seq![digit_char(n)]
    } else {
        decimal_digits(n / 10).push(digit_char(n % 10))
    }
}

/// `n` written in decimal, with a minus sign where it is negative (what
/// `Display` writes for an integer).
pub open spec fn decimal(n: int) -> Seq<char> {
    if n < 0 {
        seq!['-'] + decimal_digits((-n) as nat)
    } else {
        decimal_digits(n as nat)
    }
}

/// Appends the decimal digits of `n`.
pub(crate) fn push_digits(v: &mut Vec<char>, n: u64)
    ensures
        final(v)@ == old(v)@ + decimal_digits(n as nat),
    decreases n,
{
    if n >= 10 {
        push_digits(v, n / 10);
    }
    let d = (n % 10) as u8;
    v.push((d + 48) as char);
    assert(v@ =~= old(v)@ + decimal_digits(n as nat));
}

/// `n` written in decimal.
pub fn decimal_i32(n: i32) -> (r: String)
    ensures
        r@ == decimal(n as int),
{
    let mut v: Vec<char> = Vec::new();
    if n < 0 {
        v.push('-');
        let m: i64 = -(n as i64);
        push_digits(&mut v, m as u64);
    } else {
        push_digits(&mut v, n as u64);
    }
    string_from_chars(v.as_slice())
}

/// `n` written in decimal.
pub fn decimal_usize(n: usize) -> (r: String)
    ensures
        r@ == decimal(n as int),
{
    let mut v: Vec<char> = Vec::new();
    push_digits(&mut v, n as u64);
    string_from_chars(v.as_slice())
}

/// The lines `ls[from..]` joined with newlines.
pub(crate) fn join_lines_from(ls: &Vec<Vec<char>>, from: usize) -> (r: Vec<char>)
    requires
        from <= ls@.len(),
    ensures
        r@ == join_with(ls@.skip(from as int).map_values(|l: Vec<char>| l@), seq!['\n']),
{
    let ghost views = ls@.skip(from as int).map_values(|l: Vec<char>| l@);
    let mut out: Vec<char> = Vec::new();
    let mut i: usize = from;
    assert(views.take(0) =~= Seq::<Seq<char>>::empty());
    while i < ls.len()
        invariant
            from <= i <= ls@.len(),
            views == ls@.skip(from as int).map_values(|l: Vec<char>| l@),
            out@ == join_with(views.take(i - from), seq!['\n']),
        decreases ls@.len() - i,
    {
        let k = i - from;
        assert(views.take(k + 1).drop_last() =~= views.take(k as int));
        assert(views.take(k + 1).last() == ls@[i as int]@);
        if i > from {
            out.push('\n');
        }
        append_chars(&mut out, ls[i].as_slice());
        if i == from {
            assert(out@ =~= join_with(views.take(1), seq!['\n']));
        }
        i = i + 1;
    }
    assert(views.take(ls@.len() - from) =~= views);
    out
}


/// The lines of `s` with their newline characters, as
/// `str::split_inclusive('\n')` yields them: joined they give `s` back.
pub open spec fn segments(s: Seq<char>) -> Seq<Seq<char>> {
    let p = pieces(s);
    let n = p.len() as int;
    p.take(n - 1).map_values(|l: Seq<char>| l + seq!['\n']) + (if p[n - 1].len() == 0 {
        Seq::<Seq<char>>::empty()
    } else {
        seq![p[n - 1]]
    })
}

/// The texts of `ls` one after another.
pub open spec fn concat_all(ls: Seq<Seq<char>>) -> Seq<char>
    decreases ls.len(),
{
    if ls.len() == 0 {
        Seq::empty()
    } else {
        concat_all(ls.drop_last()) + ls.last()
    }
}

/// Whether `x` is one line: not empty, with no newline but perhaps a final
/// one.
pub open spec fn line_ok(x: Seq<char>) -> bool {
    x.len() > 0 && forall|j: int| 0 <= j < x.len() - 1 ==> x[j] != '\n'
}

/// Whether `x` ends with a newline.
pub open spec fn terminated(x: Seq<char>) -> bool {
    x.len() > 0 && x.last() == '\n'
}

/// Whether `ls` is a list of lines as `segments` gives them: each one
/// line, each but the last newline-terminated.
pub open spec fn segs_form(ls: Seq<Seq<char>>) -> bool {
    forall|i: int| 0 <= i < ls.len() ==> line_ok(#[trigger] ls[i]) && (i < ls.len() - 1 ==> terminated(ls[i]))
}

/// The lines of `v` with their newline characters.
pub(crate) fn segments_of(v: &[char]) -> (out: Vec<Vec<char>>)
    ensures
        out@.len() == segments(v@).len(),
        forall|k: int| 0 <= k < out@.len() ==> (#[trigger] out@[k])@ == segments(v@)[k],
{
    let n = v.len();
    let mut out: Vec<Vec<char>> = Vec::new();
    let mut cur: Vec<char> = Vec::new();
    let mut i: usize = 0;
    proof {
        assert(v@.take(0) =~= Seq::<char>::empty());
    }
    while i < n
        invariant
            i <= n == v@.len(),
            ({
                let p = pieces(v@.take(i as int));
                &&& p.len() >= 1
                &&& out@.len() == p.len() - 1
                &&& forall|k: int| 0 <= k < out@.len() ==> (#[trigger] out@[k])@ == p[k] + seq!['\n']
                &&& cur@ == p.last()
            }),
        decreases n - i,
    {
        let c = v[i];
        proof {
            assert(v@.take(i + 1).drop_last() =~= v@.take(i as int));
            lemma_pieces_len(v@.take(i + 1));
        }
        if c == '\n' {
            let mut line = cur;
            line.push('\n');
            out.push(line);
            cur = Vec::new();
            assert(cur@ =~= Seq::<char>::empty());
        } else {
            cur.push(c);
        }
        i = i + 1;
    }
    proof {
        assert(v@.take(n as int) =~= v@);
    }
    let ghost p = pieces(v@);
    if cur.len() > 0 {
        out.push(cur);
    }
    assert forall|k: int| 0 <= k < out@.len() implies (#[trigger] out@[k])@ == segments(v@)[k] by {
        if k < p.len() - 1 {
            assert(segments(v@)[k] == p.take(p.len() - 1).map_values(|l: Seq<char>| l + seq!['\n'])[k]);
        }
    }
    out
}

pub proof fn lemma_segments_concat(a: Seq<char>, b: Seq<char>)
    ensures
        segments(a + seq!['\n'] + b) == pieces(a).map_values(|l: Seq<char>| l + seq!['\n']) + segments(b),
{
    lemma_pieces_concat(a, b);
    lemma_pieces_len(a);
    lemma_pieces_len(b);
    let pa = pieces(a);
    let pb = pieces(b);
    let p = pa + pb;
    let n = p.len() as int;
    assert(p.take(n - 1) =~= pa + pb.take(pb.len() - 1));
    assert(p[n - 1] == pb[pb.len() - 1]);
    assert((pa + pb.take(pb.len() - 1)).map_values(|l: Seq<char>| l + seq!['\n']) =~= pa.map_values(
        |l: Seq<char>| l + seq!['\n'],
    ) + pb.take(pb.len() - 1).map_values(|l: Seq<char>| l + seq!['\n']));
    assert(segments(a + seq!['\n'] + b) =~= pa.map_values(|l: Seq<char>| l + seq!['\n']) + segments(b));
}

pub proof fn lemma_concat_all_push(ls: Seq<Seq<char>>, x: Seq<char>)
    ensures
        concat_all(ls.push(x)) == concat_all(ls) + x,
{
    assert(ls.push(x).drop_last() =~= ls);
}

/// Every piece followed by a newline gives the text and a newline.
pub proof fn lemma_concat_pieces(s: Seq<char>)
    ensures
        concat_all(pieces(s).map_values(|l: Seq<char>| l + seq!['\n'])) == s + seq!['\n'],
    decreases s.len(),
{
    let f = |l: Seq<char>| l + seq!['\n'];
    if s.len() == 0 {
        let m = pieces(s).map_values(f);
        assert(m =~= seq![seq!['\n']]);
        assert(m.drop_last() =~= Seq::<Seq<char>>::empty());
        assert(concat_all(m.drop_last()) =~= Seq::<char>::empty());
        assert(m.last() =~= seq!['\n']);
        assert(s =~= Seq::<char>::empty());
        assert(concat_all(m) =~= s + seq!['\n']);
    } else {
        let t = s.drop_last();
        let c = s.last();
        lemma_concat_pieces(t);
        lemma_pieces_len(t);
        let pt = pieces(t);
        let mt = pt.map_values(f);
        let ps = pieces(s);
        let ms = ps.map_values(f);
        if c == '\n' {
            assert(ps == pt.push(Seq::<char>::empty()));
            assert(ms =~= mt.push(seq!['\n']));
            lemma_concat_all_push(mt, seq!['\n']);
            assert(s =~= t + seq!['\n']);
        } else {
            let k = pt.len() - 1;
            assert(ps == pt.update(k, pt.last().push(c)));
            let front = pt.take(k).map_values(f);
            assert(mt =~= front.push(pt.last() + seq!['\n']));
            assert(ms =~= front.push(pt.last().push(c) + seq!['\n']));
            lemma_concat_all_push(front, pt.last() + seq!['\n']);
            lemma_concat_all_push(front, pt.last().push(c) + seq!['\n']);
            assert(concat_all(front) + pt.last() =~= t) by {
                assert(concat_all(front) + pt.last() + seq!['\n'] == t + seq!['\n']);
                assert((concat_all(front) + pt.last() + seq!['\n']).drop_last() =~= concat_all(front)
                    + pt.last());
                assert((t + seq!['\n']).drop_last() =~= t);
            }
            assert(s =~= t.push(c));
            assert(concat_all(ms) =~= s + seq!['\n']);
        }
    }
}

/// The lines of a text, joined, give the text back.
pub proof fn lemma_concat_segments(s: Seq<char>)
    ensures
        concat_all(segments(s)) == s,
{
    let f = |l: Seq<char>| l + seq!['\n'];
    lemma_concat_pieces(s);
    lemma_pieces_len(s);
    let p = pieces(s);
    let n = p.len() as int;
    let front = p.take(n - 1).map_values(f);
    assert(p.map_values(f) =~= front.push(p[n - 1] + seq!['\n']));
    lemma_concat_all_push(front, p[n - 1] + seq!['\n']);
    let whole = concat_all(front) + (p[n - 1] + seq!['\n']);
    assert(whole =~= (concat_all(front) + p[n - 1]) + seq!['\n']);
    assert(((concat_all(front) + p[n - 1]) + seq!['\n']).drop_last() =~= concat_all(front) + p[n - 1]);
    assert((s + seq!['\n']).drop_last() =~= s);
    if p[n - 1].len() == 0 {
        assert(segments(s) =~= front);
        assert(concat_all(front) + p[n - 1] =~= concat_all(front));
    } else {
        assert(segments(s) =~= front.push(p[n - 1]));
        lemma_concat_all_push(front, p[n - 1]);
    }
}

pub proof fn lemma_concat_all_front(ls: Seq<Seq<char>>)
    requires
        ls.len() > 0,
    ensures
        concat_all(ls) == ls[0] + concat_all(ls.drop_first()),
    decreases ls.len(),
{
    if ls.len() == 1 {
        assert(ls.drop_last() =~= Seq::<Seq<char>>::empty());
        assert(ls.drop_first() =~= Seq::<Seq<char>>::empty());
        assert(concat_all(ls) =~= ls[0] + concat_all(ls.drop_first()));
    } else {
        lemma_concat_all_front(ls.drop_last());
        assert(ls.drop_last().drop_first() =~= ls.drop_first().drop_last());
        assert(ls.drop_first().last() == ls.last());
        assert(concat_all(ls) =~= ls[0] + concat_all(ls.drop_first()));
    }
}

/// Lines in the form `segments` gives them, joined and split again, are the
/// same lines.
pub proof fn lemma_segments_of_concat(ls: Seq<Seq<char>>)
    requires
        segs_form(ls),
    ensures
        segments(concat_all(ls)) == ls,
    decreases ls.len(),
{
    let f = |l: Seq<char>| l + seq!['\n'];
    let z = Seq::<char>::empty();
    lemma_pieces_len(z);
    assert(pieces(z) =~= seq![z]);
    assert(segments(z) =~= Seq::<Seq<char>>::empty());
    if ls.len() == 0 {
    } else {
        let x = ls[0];
        let rest = ls.drop_first();
        lemma_concat_all_front(ls);
        assert(segs_form(rest)) by {
            assert forall|i: int| 0 <= i < rest.len() implies line_ok(#[trigger] rest[i]) && (i < rest.len()
                - 1 ==> terminated(rest[i])) by {
                assert(rest[i] == ls[i + 1]);
            }
        }
        lemma_segments_of_concat(rest);
        if terminated(x) {
            let q = x.drop_last();
            assert forall|k: int| 0 <= k < q.len() implies q[k] != '\n' by {
                assert(q[k] == x[k]);
            }
            lemma_pieces_single(q);
            assert(x =~= q + seq!['\n']);
            assert(concat_all(ls) =~= q + seq!['\n'] + concat_all(rest));
            lemma_segments_concat(q, concat_all(rest));
            assert(seq![q].map_values(f) =~= seq![x]);
            assert(seq![x] + rest =~= ls);
        } else {
            assert(ls.len() == 1);
            assert forall|k: int| 0 <= k < x.len() implies x[k] != '\n' by {
                if k == x.len() - 1 {
                    assert(x.last() == x[k]);
                }
            }
            lemma_pieces_single(x);
            assert(rest =~= Seq::<Seq<char>>::empty());
            assert(concat_all(ls) =~= x);
            assert(segments(x) =~= seq![x]);
            assert(ls =~= seq![x]);
        }
    }
}

pub proof fn lemma_segments_form(s: Seq<char>)
    ensures
        segs_form(segments(s)),
{
    lemma_pieces_facts(s);
    let p = pieces(s);
    let n = p.len() as int;
    let ls = segments(s);
    assert forall|i: int| 0 <= i < ls.len() implies line_ok(#[trigger] ls[i]) && (i < ls.len() - 1
        ==> terminated(ls[i])) by {
        if i < n - 1 {
            assert(ls[i] == p.take(n - 1).map_values(|l: Seq<char>| l + seq!['\n'])[i]);
            assert(ls[i] == p[i] + seq!['\n']);
            assert forall|j: int| 0 <= j < ls[i].len() - 1 implies ls[i][j] != '\n' by {
                assert(ls[i][j] == p[i][j]);
            }
        } else {
            assert(ls[i] == p[n - 1]);
            assert forall|j: int| 0 <= j < ls[i].len() - 1 implies ls[i][j] != '\n' by {
                assert(ls[i][j] == p[n - 1][j]);
            }
        }
    }
}

/// A newline at the end does not change a trimmed line.
pub proof fn lemma_trim_newline(p: Seq<char>)
    ensures
        trim(p + seq!['\n']) == trim(p),
{
    let x = p + seq!['\n'];
    assert(is_ws(x.last()));
    lemma_trim_drop_ws_last(x);
    assert(x.drop_last() =~= p);
}

/// A text contains itself.
pub proof fn lemma_contains_self(s: Seq<char>)
    ensures
        contains(s, s),
{
    assert(s.subrange(0, s.len() as int) =~= s);
    lemma_contains_subrange(s, 0, s.len() as int);
}

/// What a text contains, the text with more after it contains too.
pub proof fn lemma_contains_in_prefix(a: Seq<char>, b: Seq<char>, c: Seq<char>)
    requires
        contains(a, c),
    ensures
        contains(a + b, c),
{
    let i = choose|i: int| 0 <= i <= a.len() - c.len() && #[trigger] a.subrange(i, i + c.len()) == c;
    assert((a + b).subrange(i, i + c.len()) =~= c);
}

/// Trimming keeps every run that starts and ends with a character that is
/// no whitespace.
pub proof fn lemma_trim_keeps_inner(x: Seq<char>, q: int, r: int)
    requires
        0 <= q < r <= x.len(),
        !is_ws(x[q]),
        !is_ws(x[r - 1]),
    ensures
        contains(trim(x), x.subrange(q, r)),
{
    let i = first_non_ws(x);
    lemma_trim_start_skip(x, i);
    let t = x.skip(i);
    let j = end_of_non_ws(t);
    lemma_trim_end_take(t, j);
    assert(i <= q) by {
        if q < i {
            assert(is_ws(x[q]));
        }
    }
    assert(r - i <= j) by {
        if r - i > j {
            assert(t[r - 1 - i] == x[r - 1]);
        }
    }
    let tr = t.take(j);
    assert(tr.subrange(q - i, r - i) =~= x.subrange(q, r));
    lemma_contains_subrange(tr, q - i, r - i);
}

/// Where `x` contains `p`, trimmed `x` contains trimmed `p`.
pub proof fn lemma_trim_of_contained(x: Seq<char>, p: Seq<char>)
    requires
        contains(x, p),
    ensures
        contains(trim(x), trim(p)),
{
    let o = choose|o: int| 0 <= o <= x.len() - p.len() && #[trigger] x.subrange(o, o + p.len()) == p;
    let a = first_non_ws(p);
    lemma_trim_start_skip(p, a);
    let t = p.skip(a);
    let jb = end_of_non_ws(t);
    lemma_trim_end_take(t, jb);
    if jb == 0 {
        assert(trim(p) =~= Seq::<char>::empty());
        let z: int = 0;
        assert(trim(x).subrange(z, z + trim(p).len()) =~= trim(p));
    } else {
        assert(p[a] == t[0]);
        assert(p[a + jb - 1] == t[jb - 1]);
        assert(x[o + a] == p[a]);
        assert(x[o + a + jb - 1] == p[a + jb - 1]);
        lemma_trim_keeps_inner(x, o + a, o + a + jb);
        assert(x.subrange(o + a, o + a + jb) =~= trim(p));
    }
}

/// Joined parts contain each part.
pub proof fn lemma_join_contains(parts: Seq<Seq<char>>, sep: Seq<char>, i: int)
    requires
        0 <= i < parts.len(),
    ensures
        contains(join_with(parts, sep), parts[i]),
    decreases parts.len(),
{
    if parts.len() == 1 {
        lemma_contains_self(parts[0]);
    } else {
        let d = parts.drop_last();
        let a = join_with(d, sep);
        assert(join_with(parts, sep) == a + sep + parts.last());
        if i == parts.len() - 1 {
            lemma_contains_self(parts.last());
            lemma_contains_in_suffix(a + sep, parts.last(), parts.last());
        } else {
            lemma_join_contains(d, sep, i);
            assert(d[i] == parts[i]);
            lemma_contains_in_prefix(a, sep + parts.last(), parts[i]);
            assert(a + (sep + parts.last()) =~= a + sep + parts.last());
        }
    }
}

} // verus!
