//! Character-level text operations on which the configuration format and
//! the command lines are built, each with the sequence it produces.
use vstd::prelude::*;

verus! {

/// Whether `c` has the Unicode `White_Space` property.
pub open spec fn is_white(c: char) -> bool {
    let u = c as u32;
    ||| 0x09 <= u <= 0x0d
    ||| u == 0x20
    ||| u == 0x85
    ||| u == 0xa0
    ||| u == 0x1680
    ||| 0x2000 <= u <= 0x200a
    ||| u == 0x2028
    ||| u == 0x2029
    ||| u == 0x202f
    ||| u == 0x205f
    ||| u == 0x3000
}

/// `s` without its leading white space.
pub open spec fn trim_start(s: Seq<char>) -> Seq<char>
    decreases s.len(),
{
    if s.len() > 0 && is_white(s[0]) {
        trim_start(s.drop_first())
    } else {
        s
    }
}

/// `s` without its trailing white space.
pub open spec fn trim_end(s: Seq<char>) -> Seq<char>
    decreases s.len(),
{
    if s.len() > 0 && is_white(s.last()) {
        trim_end(s.drop_last())
    } else {
        s
    }
}

/// `s` without white space at either end.
pub open spec fn trim(s: Seq<char>) -> Seq<char> {
    trim_end(trim_start(s))
}

/// Whether `s` has no white space at either end, so that trimming keeps it.
pub open spec fn is_trimmed(s: Seq<char>) -> bool {
    s.len() > 0 ==> !is_white(s[0]) && !is_white(s.last())
}

/// The pieces of `s` between the occurrences of `sep`, in order; there is
/// always at least one piece, and one more than there are separators.
pub open spec fn split(s: Seq<char>, sep: char) -> Seq<Seq<char>>
    decreases s.len(),
{
    if s.len() == 0 {
        seq![Seq::<char>::empty()]
    } else {
        let front = split(s.drop_last(), sep);
        if s.last() == sep {
            front.push(Seq::<char>::empty())
        } else {
            front.update(front.len() - 1, front.last().push(s.last()))
        }
    }
}

/// The pieces of `parts` with `sep` between each two neighbours.
pub open spec fn join(parts: Seq<Seq<char>>, sep: char) -> Seq<char>
    decreases parts.len(),
{
    if parts.len() == 0 {
        Seq::<char>::empty()
    } else if parts.len() == 1 {
        parts[0]
    } else {
        join(parts.drop_last(), sep).push(sep) + parts.last()
    }
}

/// The `len` characters of `hay` that start at `at`.
pub open spec fn window(hay: Seq<char>, at: int, len: int) -> Seq<char> {
    hay.subrange(at, at + len)
}

/// Whether `needle` occurs in `hay` as a contiguous run.
pub open spec fn occurs_in(needle: Seq<char>, hay: Seq<char>) -> bool {
    exists|i: int|
        0 <= i && i + needle.len() <= hay.len() && #[trigger] window(hay, i, needle.len() as int)
            == needle
}

/// `s` with every `c` removed.
pub open spec fn without(s: Seq<char>, c: char) -> Seq<char>
    decreases s.len(),
{
    if s.len() == 0 {
        s
    } else if s.last() == c {
        without(s.drop_last(), c)
    } else {
        without(s.drop_last(), c).push(s.last())
    }
}

/// `s` with every `from` replaced by `to`.
pub open spec fn replaced(s: Seq<char>, from: char, to: char) -> Seq<char> {
    s.map_values(|x: char| if x == from { to } else { x })
}

/// The views of a list of strings.
pub open spec fn views(v: Seq<String>) -> Seq<Seq<char>> {
    v.map_values(|s: String| s@)
}

pub(crate) proof fn lemma_split_nonempty(s: Seq<char>, sep: char)
    ensures
        split(s, sep).len() >= 1,
    decreases s.len(),
{
    if s.len() > 0 {
        lemma_split_nonempty(s.drop_last(), sep);
    }
}

/// Whether `c` does not occur in `s`.
pub open spec fn free_of(s: Seq<char>, c: char) -> bool {
    forall|i: int| 0 <= i < s.len() ==> s[i] != c
}

proof fn lemma_split_plain_tail(a: Seq<char>, b: Seq<char>, sep: char)
    requires
        free_of(b, sep),
    ensures
        split(a + b, sep) == split(a, sep).update(
            split(a, sep).len() - 1,
            split(a, sep).last() + b,
        ),
    decreases b.len(),
{
    lemma_split_nonempty(a, sep);
    if b.len() == 0 {
        assert(a + b =~= a);
        assert(split(a, sep).last() + b =~= split(a, sep).last());
        assert(split(a, sep).update(split(a, sep).len() - 1, split(a, sep).last()) =~= split(
            a,
            sep,
        ));
    } else {
        let b0 = b.drop_last();
        lemma_split_plain_tail(a, b0, sep);
        assert((a + b).drop_last() =~= a + b0);
        assert((a + b).last() == b.last());
        assert(b[b.len() - 1] != sep);
        let s0 = split(a + b0, sep);
        let l = split(a, sep).len();
        assert(s0.len() == l);
        assert(s0.last() == split(a, sep).last() + b0);
        assert(split(a + b, sep) == s0.update(l - 1, s0.last().push(b.last())));
        assert((split(a, sep).last() + b0).push(b.last()) =~= split(a, sep).last() + b);
        assert(split(a + b, sep) =~= split(a, sep).update(
            split(a, sep).len() - 1,
            split(a, sep).last() + b,
        ));
    }
}

/// Splitting what `join` built at the same separator gives back the pieces,
/// as long as no piece holds the separator.
pub proof fn law_split_after_join(parts: Seq<Seq<char>>, sep: char)
    requires
        parts.len() >= 1,
        forall|k: int| 0 <= k < parts.len() ==> free_of(#[trigger] parts[k], sep),
    ensures
        split(join(parts, sep), sep) == parts,
    decreases parts.len(),
{
    if parts.len() == 1 {
        lemma_split_plain_tail(Seq::<char>::empty(), parts[0], sep);
        assert(Seq::<char>::empty() + parts[0] =~= parts[0]);
        assert(split(parts[0], sep) =~= parts);
    } else {
        let front = parts.drop_last();
        assert forall|k: int| 0 <= k < front.len() implies free_of(#[trigger] front[k], sep) by {
            assert(front[k] == parts[k]);
        }
        law_split_after_join(front, sep);
        let a = join(front, sep).push(sep);
        assert(a.drop_last() =~= join(front, sep));
        assert(split(a, sep) == front.push(Seq::<char>::empty()));
        assert(free_of(parts[parts.len() - 1], sep));
        lemma_split_plain_tail(a, parts.last(), sep);
        assert(Seq::<char>::empty() + parts.last() =~= parts.last());
        assert(split(join(parts, sep), sep) =~= parts);
    }
}

/// Trimming a trimmed sequence keeps it.
pub(crate) proof fn lemma_trim_trimmed(s: Seq<char>)
    requires
        is_trimmed(s),
    ensures
        trim(s) == s,
{
}

proof fn lemma_trim_start_shape(s: Seq<char>, c: char)
    ensures
        trim_start(s).len() <= s.len(),
        trim_start(s) == s.subrange(s.len() - trim_start(s).len(), s.len() as int),
        trim_start(s).len() > 0 ==> !is_white(trim_start(s)[0]),
        free_of(s, c) ==> free_of(trim_start(s), c),
        forall|i: int| 0 <= i < s.len() - trim_start(s).len() ==> is_white(#[trigger] s[i]),
    decreases s.len(),
{
    if s.len() > 0 && is_white(s[0]) {
        lemma_trim_start_shape(s.drop_first(), c);
        assert forall|i: int| 0 <= i < s.len() - trim_start(s).len() implies is_white(
            #[trigger] s[i],
        ) by {
            if i > 0 {
                assert(s[i] == s.drop_first()[i - 1]);
            }
        }
        assert(s.drop_first().subrange(
            s.drop_first().len() - trim_start(s).len(),
            s.drop_first().len() as int,
        ) =~= s.subrange(s.len() - trim_start(s).len(), s.len() as int));
    } else {
        assert(s.subrange(0, s.len() as int) =~= s);
    }
}

proof fn lemma_trim_end_shape(s: Seq<char>, c: char)
    ensures
        trim_end(s).len() <= s.len(),
        trim_end(s) == s.take(trim_end(s).len() as int),
        trim_end(s).len() > 0 ==> !is_white(trim_end(s).last()),
        free_of(s, c) ==> free_of(trim_end(s), c),
        forall|i: int| trim_end(s).len() <= i < s.len() ==> is_white(#[trigger] s[i]),
    decreases s.len(),
{
    if s.len() > 0 && is_white(s.last()) {
        lemma_trim_end_shape(s.drop_last(), c);
        assert forall|i: int| trim_end(s).len() <= i < s.len() implies is_white(#[trigger] s[i]) by {
            if i < s.len() - 1 {
                assert(s[i] == s.drop_last()[i]);
            }
        }
        assert(s.drop_last().take(trim_end(s).len() as int) =~= s.take(
            trim_end(s).len() as int,
        ));
    } else {
        assert(s.take(s.len() as int) =~= s);
    }
}

/// What trimming leaves: nothing to trim, no character that was not there,
/// and, when something is left of a sequence that starts with a character
/// other than white space, that same first character.
pub(crate) proof fn lemma_trim_result(s: Seq<char>, c: char)
    ensures
        is_trimmed(trim(s)),
        free_of(s, c) ==> free_of(trim(s), c),
        s.len() > 0 && !is_white(s[0]) && trim(s).len() > 0 ==> trim(s)[0] == s[0],
{
    lemma_trim_start_shape(s, c);
    lemma_trim_end_shape(trim_start(s), c);
    let y = trim_start(s);
    if trim(s).len() > 0 {
        assert(trim(s)[0] == y[0]);
    }
    if s.len() > 0 && !is_white(s[0]) {
        assert(y == s);
    }
}

/// Whether every character of `s` is white space.
pub open spec fn all_white(s: Seq<char>) -> bool {
    forall|i: int| 0 <= i < s.len() ==> is_white(#[trigger] s[i])
}

/// Trimming removes white space only: `s` is white space, then what
/// trimming keeps, then white space; with nothing kept, all of `s` is white.
pub(crate) proof fn lemma_trim_bounds(s: Seq<char>) -> (r: (int, int))
    ensures
        0 <= r.0 <= r.1 <= s.len(),
        s.subrange(r.0, r.1) == trim(s),
        all_white(s.subrange(0, r.0)),
        all_white(s.subrange(r.1, s.len() as int)),
        trim(s).len() == 0 ==> all_white(s),
{
    lemma_trim_start_shape(s, 'a');
    let y = trim_start(s);
    lemma_trim_end_shape(y, 'a');
    let a = s.len() - y.len();
    let b = a + trim_end(y).len();
    assert(s.subrange(a, b) =~= trim(s));
    assert forall|i: int| 0 <= i < s.subrange(b, s.len() as int).len() implies is_white(
        #[trigger] s.subrange(b, s.len() as int)[i],
    ) by {
        assert(s.subrange(b, s.len() as int)[i] == y[b - a + i]);
    }
    if trim(s).len() == 0 {
        assert forall|i: int| 0 <= i < s.len() implies is_white(#[trigger] s[i]) by {
            if i >= a {
                assert(s[i] == y[i - a]);
            }
        }
    }
    (a, b)
}

proof fn lemma_trim_start_white_prefix(p: Seq<char>, x: Seq<char>)
    requires
        all_white(p),
    ensures
        trim_start(p + x) == trim_start(x),
    decreases p.len(),
{
    if p.len() > 0 {
        assert((p + x)[0] == p[0]);
        assert((p + x).drop_first() =~= p.drop_first() + x);
        lemma_trim_start_white_prefix(p.drop_first(), x);
    } else {
        assert(p + x =~= x);
    }
}

proof fn lemma_trim_end_white_suffix(x: Seq<char>, q: Seq<char>)
    requires
        all_white(q),
    ensures
        trim_end(x + q) == trim_end(x),
    decreases q.len(),
{
    if q.len() > 0 {
        assert((x + q).last() == q.last());
        assert((x + q).drop_last() =~= x + q.drop_last());
        lemma_trim_end_white_suffix(x, q.drop_last());
    } else {
        assert(x + q =~= x);
    }
}

/// Trimming white space around something that has none at its ends keeps
/// exactly that something.
pub(crate) proof fn lemma_trim_frame(p: Seq<char>, m: Seq<char>, q: Seq<char>)
    requires
        all_white(p),
        all_white(q),
        is_trimmed(m),
    ensures
        trim(p + m + q) == m,
{
    assert(p + m + q =~= p + (m + q));
    lemma_trim_start_white_prefix(p, m + q);
    if m.len() > 0 {
        assert((m + q)[0] == m[0]);
        assert(trim_start(m + q) == m + q);
        lemma_trim_end_white_suffix(m, q);
    } else {
        assert(m + q =~= q);
        assert(Seq::<char>::empty() + q =~= q);
        lemma_trim_start_white_prefix(q, Seq::<char>::empty());
        assert(q + Seq::<char>::empty() =~= q);
        assert(trim_start(Seq::<char>::empty()) == Seq::<char>::empty());
    }
}

/// The pieces of a split hold no separator, and no character that the whole
/// did not hold.
pub(crate) proof fn lemma_split_pieces(s: Seq<char>, sep: char, c: char)
    ensures
        forall|k: int| 0 <= k < split(s, sep).len() ==> free_of(#[trigger] split(s, sep)[k], sep),
        free_of(s, c) ==> forall|k: int|
            0 <= k < split(s, sep).len() ==> free_of(#[trigger] split(s, sep)[k], c),
    decreases s.len(),
{
    if s.len() > 0 {
        let front = split(s.drop_last(), sep);
        lemma_split_pieces(s.drop_last(), sep, c);
        lemma_split_nonempty(s.drop_last(), sep);
        if s.last() != sep {
            let l = front.len() - 1;
            assert forall|k: int| 0 <= k < split(s, sep).len() implies free_of(
                #[trigger] split(s, sep)[k],
                sep,
            ) by {
                if k == l {
                    assert(split(s, sep)[k] == front[l].push(s.last()));
                    assert(free_of(front[l], sep));
                }
            }
            if free_of(s, c) {
                assert(free_of(s.drop_last(), c)) by {
                    assert forall|i: int| 0 <= i < s.drop_last().len() implies s.drop_last()[i]
                        != c by {
                        assert(s.drop_last()[i] == s[i]);
                    }
                }
                assert(s[s.len() - 1] != c);
                assert forall|k: int| 0 <= k < split(s, sep).len() implies free_of(
                    #[trigger] split(s, sep)[k],
                    c,
                ) by {
                    if k == l {
                        assert(split(s, sep)[k] == front[l].push(s.last()));
                        assert(free_of(front[l], c));
                    }
                }
            }
        } else {
            if free_of(s, c) {
                assert(free_of(s.drop_last(), c)) by {
                    assert forall|i: int| 0 <= i < s.drop_last().len() implies s.drop_last()[i]
                        != c by {
                        assert(s.drop_last()[i] == s[i]);
                    }
                }
            }
        }
    }
}

proof fn lemma_split_single(s: Seq<char>, sep: char)
    requires
        split(s, sep).len() == 1,
    ensures
        split(s, sep)[0] == s,
    decreases s.len(),
{
    if s.len() > 0 {
        lemma_split_nonempty(s.drop_last(), sep);
        lemma_split_single(s.drop_last(), sep);
        assert(s.drop_last().push(s.last()) =~= s);
    }
}

/// The first piece of a split is where the sequence starts.
pub(crate) proof fn lemma_split_first_prefix(s: Seq<char>, sep: char)
    ensures
        split(s, sep)[0].len() <= s.len(),
        split(s, sep)[0] == s.take(split(s, sep)[0].len() as int),
    decreases s.len(),
{
    lemma_split_nonempty(s, sep);
    if s.len() == 0 {
        assert(s.take(0) =~= s);
    } else {
        let x = s.drop_last();
        let front = split(x, sep);
        lemma_split_nonempty(x, sep);
        lemma_split_first_prefix(x, sep);
        let k = front[0].len() as int;
        if s.last() == sep || front.len() > 1 {
            assert(split(s, sep)[0] == front[0]);
            assert(x.take(k) =~= s.take(k));
        } else {
            lemma_split_single(x, sep);
            assert(split(s, sep)[0] == x.push(s.last()));
            assert(x.push(s.last()) =~= s);
            assert(s.take(s.len() as int) =~= s);
        }
    }
}

/// Joining pieces that lack a character, with a separator other than it,
/// gives a sequence that lacks it too.
pub(crate) proof fn lemma_join_free(parts: Seq<Seq<char>>, sep: char, c: char)
    requires
        sep != c,
        forall|k: int| 0 <= k < parts.len() ==> free_of(#[trigger] parts[k], c),
    ensures
        free_of(join(parts, sep), c),
    decreases parts.len(),
{
    if parts.len() > 1 {
        let front = parts.drop_last();
        assert forall|k: int| 0 <= k < front.len() implies free_of(#[trigger] front[k], c) by {
            assert(front[k] == parts[k]);
        }
        lemma_join_free(front, sep, c);
        assert(free_of(parts[parts.len() - 1], c));
        let j = join(parts, sep);
        let a = join(front, sep).push(sep);
        assert forall|i: int| 0 <= i < j.len() implies j[i] != c by {
            if i < a.len() {
                assert(j[i] == a[i]);
            } else {
                assert(j[i] == parts.last()[i - a.len()]);
            }
        }
    } else if parts.len() == 1 {
        assert(free_of(parts[0], c));
    }
}

/// Whether `c` is white space, as `char::is_whitespace` decides it.
pub fn is_white_char(c: char) -> (b: bool)
    ensures
        b == is_white(c),
{
    let u = c as u32;
    (0x09 <= u && u <= 0x0d) || u == 0x20 || u == 0x85 || u == 0xa0 || u == 0x1680 || (0x2000 <= u
        && u <= 0x200a) || u == 0x2028 || u == 0x2029 || u == 0x202f || u == 0x205f || u == 0x3000
}

/// The characters of `s`, one by one.
pub fn chars_of(s: &str) -> (v: Vec<char>)
    ensures
        v@ == s@,
{
    let mut v: Vec<char> = Vec::new();
    for c in it: s.chars()
        invariant
            v@ == it.seq().take(it.index() as int),
            it.seq() == s@,
    {
        v.push(c);
    }
    v
}

/// The characters `from..to` of `s` as a new string.
pub fn slice_string(s: &str, from: usize, to: usize) -> (r: String)
    requires
        from <= to <= s@.len(),
    ensures
        r@ == s@.subrange(from as int, to as int),
{
    String::from_str(s.substring_char(from, to))
}

/// `s` with white space removed at both ends, as `str::trim` does it.
pub fn trim_string(s: &str) -> (r: String)
    ensures
        r@ == trim(s@),
{
    let v = chars_of(s);
    let n = v.len();
    let mut lo: usize = 0;
    assert(s@.subrange(0, n as int) =~= s@);
    while lo < n && is_white_char(v[lo])
        invariant
            v@ == s@,
            n == v.len(),
            lo <= n,
            trim_start(s@) == trim_start(s@.subrange(lo as int, n as int)),
        decreases n - lo,
    {
        assert(s@.subrange(lo as int, n as int).drop_first() =~= s@.subrange(lo + 1, n as int));
        lo = lo + 1;
    }
    assert(trim_start(s@) == s@.subrange(lo as int, n as int));
    let mut hi: usize = n;
    while hi > lo && is_white_char(v[hi - 1])
        invariant
            v@ == s@,
            n == v.len(),
            lo <= hi <= n,
            trim(s@) == trim_end(s@.subrange(lo as int, hi as int)),
        decreases hi,
    {
        assert(s@.subrange(lo as int, hi as int).drop_last() =~= s@.subrange(
            lo as int,
            hi - 1,
        ));
        hi = hi - 1;
    }
    slice_string(s, lo, hi)
}

/// The pieces of `s` between the occurrences of `sep`, as `str::split` gives them.
pub fn split_string(s: &str, sep: char) -> (r: Vec<String>)
    ensures
        views(r@) == split(s@, sep),
{
    let v = chars_of(s);
    let n = v.len();
    let mut pieces: Vec<String> = Vec::new();
    let mut start: usize = 0;
    let mut i: usize = 0;
    assert(s@.subrange(0, 0) =~= Seq::<char>::empty());
    assert(views(pieces@).push(s@.subrange(0, 0)) =~= seq![Seq::<char>::empty()]);
    while i < n
        invariant
            v@ == s@,
            n == v.len(),
            start <= i <= n,
            views(pieces@).push(s@.subrange(start as int, i as int)) == split(
                s@.subrange(0, i as int),
                sep,
            ),
        decreases n - i,
    {
        let ghost prev = views(pieces@);
        proof {
            assert(s@.subrange(0, i + 1).drop_last() =~= s@.subrange(0, i as int));
            lemma_split_nonempty(s@.subrange(0, i as int), sep);
        }
        if v[i] == sep {
            let piece = slice_string(s, start, i);
            pieces.push(piece);
            assert(views(pieces@) =~= prev.push(piece@));
            assert(s@.subrange(i + 1, i + 1) =~= Seq::<char>::empty());
            start = i + 1;
        } else {
            assert(s@.subrange(start as int, i + 1) =~= s@.subrange(start as int, i as int).push(
                v[i as int],
            ));
        }
        i = i + 1;
    }
    let last = slice_string(s, start, n);
    pieces.push(last);
    assert(s@.subrange(0, n as int) =~= s@);
    pieces
}

/// The strings of `parts` joined by the one-character separator `sep`,
/// as `[String]::join` gives them.
pub fn join_strings(parts: &Vec<String>, sep: &str) -> (r: String)
    requires
        sep@.len() == 1,
    ensures
        r@ == join(views(parts@), sep@[0]),
{
    let n = parts.len();
    if n == 0 {
        return String::new();
    }
    let mut r = parts[0].clone();
    let mut i: usize = 1;
    proof {
        let first = views(parts@).take(1);
        assert(first =~= seq![parts@[0]@]);
        assert(join(first, sep@[0]) == parts@[0]@);
    }
    while i < n
        invariant
            n == parts.len(),
            1 <= i <= n,
            sep@.len() == 1,
            r@ == join(views(parts@).take(i as int), sep@[0]),
        decreases n - i,
    {
        r.append(sep);
        r.append(parts[i].as_str());
        proof {
            let next = views(parts@).take(i + 1);
            assert(next.drop_last() =~= views(parts@).take(i as int));
            assert(next.last() == parts@[i as int]@);
            assert(sep@ =~= seq![sep@[0]]);
            assert(join(next, sep@[0]) =~= join(views(parts@).take(i as int), sep@[0]).push(sep@[0])
                + parts@[i as int]@);
        }
        i = i + 1;
    }
    assert(views(parts@).take(n as int) =~= views(parts@));
    r
}

/// Whether `needle` occurs in `hay`, as `str::contains` decides it.
pub fn occurs(needle: &str, hay: &str) -> (b: bool)
    ensures
        b == occurs_in(needle@, hay@),
{
    let nv = chars_of(needle);
    let hv = chars_of(hay);
    let m = nv.len();
    let n = hv.len();
    if m > n {
        return false;
    }
    let mut i: usize = 0;
    while i <= n - m
        invariant
            nv@ == needle@,
            hv@ == hay@,
            m == nv.len(),
            n == hv.len(),
            m <= n,
            forall|k: int| 0 <= k < i ==> #[trigger] window(hay@, k, m as int) != needle@,
        decreases n - m + 1 - i,
    {
        let mut j: usize = 0;
        while j < m && hv[i + j] == nv[j]
            invariant
                nv@ == needle@,
                hv@ == hay@,
                m == nv.len(),
                n == hv.len(),
                i + m <= n,
                j <= m,
                forall|k: int| 0 <= k < j ==> hay@[i + k] == needle@[k],
            decreases m - j,
        {
            j = j + 1;
        }
        if j == m {
            assert(window(hay@, i as int, m as int) =~= needle@);
            return true;
        }
        assert(window(hay@, i as int, m as int)[j as int] != needle@[j as int]);
        i = i + 1;
    }
    assert forall|k: int| 0 <= k && k + needle@.len() <= hay@.len() implies #[trigger] window(
        hay@,
        k,
        needle@.len() as int,
    ) != needle@ by {
        assert(k < i);
    }
    false
}

/// `s` with every `c` removed.
pub fn remove_char(s: &str, c: char) -> (r: String)
    ensures
        r@ == without(s@, c),
{
    let v = chars_of(s);
    let n = v.len();
    let mut r = String::new();
    let mut i: usize = 0;
    assert(s@.take(0) =~= Seq::<char>::empty());
    while i < n
        invariant
            v@ == s@,
            n == v.len(),
            i <= n,
            r@ == without(s@.take(i as int), c),
        decreases n - i,
    {
        assert(s@.take(i + 1).drop_last() =~= s@.take(i as int));
        if v[i] != c {
            let piece = slice_string(s, i, i + 1);
            r.append(piece.as_str());
            assert(piece@ =~= seq![v@[i as int]]);
        }
        i = i + 1;
    }
    assert(s@.take(n as int) =~= s@);
    r
}

/// `s` with every `from` replaced by the one-character string `to`.
pub fn replace_char(s: &str, from: char, to: &str) -> (r: String)
    requires
        to@.len() == 1,
    ensures
        r@ == replaced(s@, from, to@[0]),
{
    let v = chars_of(s);
    let n = v.len();
    let mut r = String::new();
    let mut i: usize = 0;
    while i < n
        invariant
            v@ == s@,
            n == v.len(),
            i <= n,
            to@.len() == 1,
            r@ == replaced(s@.take(i as int), from, to@[0]),
        decreases n - i,
    {
        if v[i] == from {
            r.append(to);
        } else {
            let piece = slice_string(s, i, i + 1);
            r.append(piece.as_str());
        }
        assert(replaced(s@.take(i + 1), from, to@[0]) =~= replaced(s@.take(i as int), from, to@[0]).push(
            if v@[i as int] == from { to@[0] } else { v@[i as int] },
        ));
        i = i + 1;
    }
    assert(s@.take(n as int) =~= s@);
    r
}

} // verus!
