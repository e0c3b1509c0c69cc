//! Character-level text handling: whitespace, line splitting, trimming,
//! words, joining, and prefix/suffix stripping, each stated over `Seq<char>`.
use vstd::prelude::*;

verus! {

/// Unicode `White_Space`, the set of characters `char::is_whitespace` accepts.
pub open spec fn is_ws(c: char) -> bool {
    let n = c as u32;
    ||| 0x09 <= n <= 0x0d
    ||| n == 0x20
    ||| n == 0x85
    ||| n == 0xa0
    ||| n == 0x1680
    ||| 0x2000 <= n <= 0x200a
    ||| n == 0x2028
    ||| n == 0x2029
    ||| n == 0x202f
    ||| n == 0x205f
    ||| n == 0x3000
}

/// Whether `c` is Unicode whitespace.
pub fn is_whitespace(c: char) -> (b: bool)
    ensures
        b == is_ws(c),
{
    let n = c as u32;
    (0x09 <= n && n <= 0x0d) || n == 0x20 || n == 0x85 || n == 0xa0 || n == 0x1680 || (0x2000 <= n
        && n <= 0x200a) || n == 0x2028 || n == 0x2029 || n == 0x202f || n == 0x205f || n == 0x3000
}

/// A class of characters that a scan runs over.
#[derive(Clone, Copy)]
pub enum CharClass {
    Whitespace,
    NonWhitespace,
    /// Every character but the one given.
    Except(char),
}

pub open spec fn in_class(cls: CharClass, c: char) -> bool {
    match cls {
        CharClass::Whitespace => is_ws(c),
        CharClass::NonWhitespace => !is_ws(c),
        CharClass::Except(d) => c != d,
    }
}

/// Whether `c` belongs to `cls`.
pub fn char_in_class(cls: CharClass, c: char) -> (b: bool)
    ensures
        b == in_class(cls, c),
{
    match cls {
        CharClass::Whitespace => is_whitespace(c),
        CharClass::NonWhitespace => !is_whitespace(c),
        CharClass::Except(d) => c != d,
    }
}

/// The length of the longest prefix of `s` whose characters all belong to `cls`.
pub open spec fn lead_len(s: Seq<char>, cls: CharClass) -> nat
    decreases s.len(),
{
    if s.len() == 0 {
        0
    } else if in_class(cls, s[0]) {
        1 + lead_len(s.drop_first(), cls)
    } else {
        0
    }
}

/// The length of the longest suffix of `s` whose characters all belong to `cls`.
pub open spec fn trail_len(s: Seq<char>, cls: CharClass) -> nat
    decreases s.len(),
{
    if s.len() == 0 {
        0
    } else if in_class(cls, s.last()) {
        1 + trail_len(s.drop_last(), cls)
    } else {
        0
    }
}

/// `lead_len` is the index of the first character outside the class.
pub proof fn lemma_lead_len(s: Seq<char>, cls: CharClass)
    ensures
        lead_len(s, cls) <= s.len(),
        forall|j: int| 0 <= j < lead_len(s, cls) ==> in_class(cls, #[trigger] s[j]),
        lead_len(s, cls) < s.len() ==> !in_class(cls, s[lead_len(s, cls) as int]),
    decreases s.len(),
{
    if s.len() > 0 && in_class(cls, s[0]) {
        lemma_lead_len(s.drop_first(), cls);
        assert forall|j: int| 0 <= j < lead_len(s, cls) implies in_class(cls, #[trigger] s[j]) by {
            if j > 0 {
                assert(s[j] == s.drop_first()[j - 1]);
            }
        }
    }
}

/// A prefix of class characters followed by a non-class character (or the end)
/// has exactly the length that `lead_len` gives.
pub proof fn lemma_lead_len_is(s: Seq<char>, cls: CharClass, k: int)
    requires
        0 <= k <= s.len(),
        forall|j: int| 0 <= j < k ==> in_class(cls, #[trigger] s[j]),
        k == s.len() || !in_class(cls, s[k]),
    ensures
        lead_len(s, cls) == k,
    decreases k,
{
    if k > 0 {
        assert(in_class(cls, s[0]));
        assert forall|j: int| 0 <= j < k - 1 implies in_class(cls, #[trigger] s.drop_first()[j]) by {
            assert(s.drop_first()[j] == s[j + 1]);
        }
        lemma_lead_len_is(s.drop_first(), cls, k - 1);
    }
}

/// `trail_len` counts back to the last character outside the class.
pub proof fn lemma_trail_len(s: Seq<char>, cls: CharClass)
    ensures
        trail_len(s, cls) <= s.len(),
        forall|j: int|
            s.len() - trail_len(s, cls) <= j < s.len() ==> in_class(cls, #[trigger] s[j]),
        trail_len(s, cls) < s.len() ==> !in_class(cls, s[s.len() - trail_len(s, cls) - 1]),
    decreases s.len(),
{
    if s.len() > 0 && in_class(cls, s.last()) {
        lemma_trail_len(s.drop_last(), cls);
        assert forall|j: int|
            s.len() - trail_len(s, cls) <= j < s.len() implies in_class(cls, #[trigger] s[j]) by {
            if j < s.len() - 1 {
                assert(s[j] == s.drop_last()[j]);
            }
        }
    }
}

/// A suffix of class characters preceded by a non-class character (or the start)
/// has exactly the length that `trail_len` gives.
pub proof fn lemma_trail_len_is(s: Seq<char>, cls: CharClass, k: int)
    requires
        0 <= k <= s.len(),
        forall|j: int| s.len() - k <= j < s.len() ==> in_class(cls, #[trigger] s[j]),
        k == s.len() || !in_class(cls, s[s.len() - k - 1]),
    ensures
        trail_len(s, cls) == k,
    decreases k,
{
    if k > 0 {
        assert(in_class(cls, s[s.len() - 1]));
        assert forall|j: int|
            s.drop_last().len() - (k - 1) <= j < s.drop_last().len() implies in_class(
            cls,
            #[trigger] s.drop_last()[j],
        ) by {
            assert(s.drop_last()[j] == s[j]);
        }
        if k - 1 < s.drop_last().len() {
            assert(s.drop_last()[s.drop_last().len() - (k - 1) - 1] == s[s.len() - k - 1]);
        }
        lemma_trail_len_is(s.drop_last(), cls, k - 1);
    }
}

/// The first index at or after `from` (and before `to`) of a character outside `cls`,
/// or `to` where there is none.
pub fn scan_forward(cs: &Vec<char>, from: usize, to: usize, cls: CharClass) -> (k: usize)
    requires
        from <= to <= cs@.len(),
    ensures
        from <= k <= to,
        k - from == lead_len(cs@.subrange(from as int, to as int), cls),
{
    let mut k = from;
    while k < to && char_in_class(cls, cs[k])
        invariant
            from <= k <= to <= cs@.len(),
            forall|j: int| from <= j < k ==> in_class(cls, #[trigger] cs@[j]),
        decreases to - k,
    {
        k = k + 1;
    }
    let ghost s = cs@.subrange(from as int, to as int);
    proof {
        assert forall|j: int| 0 <= j < k - from implies in_class(cls, #[trigger] s[j]) by {
            assert(s[j] == cs@[from + j]);
        }
        if k < to {
            assert(s[k - from] == cs@[k as int]);
        }
        lemma_lead_len_is(s, cls, k - from);
    }
    k
}

/// The index after the last character outside `cls` in `from..to`,
/// or `from` where there is none.
pub fn scan_backward(cs: &Vec<char>, from: usize, to: usize, cls: CharClass) -> (k: usize)
    requires
        from <= to <= cs@.len(),
    ensures
        from <= k <= to,
        to - k == trail_len(cs@.subrange(from as int, to as int), cls),
{
    let mut k = to;
    while k > from && char_in_class(cls, cs[k - 1])
        invariant
            from <= k <= to <= cs@.len(),
            forall|j: int| k <= j < to ==> in_class(cls, #[trigger] cs@[j]),
        decreases k - from,
    {
        k = k - 1;
    }
    let ghost s = cs@.subrange(from as int, to as int);
    proof {
        assert forall|j: int| s.len() - (to - k) <= j < s.len() implies in_class(
            cls,
            #[trigger] s[j],
        ) by {
            assert(s[j] == cs@[from + j]);
        }
        if k > from {
            assert(s[s.len() - (to - k) - 1] == cs@[k - 1]);
        }
        lemma_trail_len_is(s, cls, (to - k) as int);
    }
    k
}


/// `s` without one trailing carriage return, if it ends in one.
pub open spec fn strip_cr(s: Seq<char>) -> Seq<char> {
    if s.len() > 0 && s.last() == '\r' {
        s.drop_last()
    } else {
        s
    }
}

/// The lines of `s` as `str::lines` yields them: pieces ended by `'\n'` or by the end
/// of `s`, each without its `'\n'` and without one `'\r'` just before that `'\n'`;
/// a final line ending adds no empty line, and the empty string has no lines.
pub open spec fn lines(s: Seq<char>) -> Seq<Seq<char>>
    decreases s.len(),
{
    if s.len() == 0 {
        seq![]
    } else {
        let k = lead_len(s, CharClass::Except('\n'));
        if k >= s.len() {
            seq![s]
        } else {
            seq![strip_cr(s.take(k as int))] + lines(s.skip(k + 1 as int))
        }
    }
}

/// The maximal runs of non-whitespace characters of `s`, in order
/// (what `str::split_whitespace` yields).
pub open spec fn words(s: Seq<char>) -> Seq<Seq<char>>
    decreases s.len(),
{
    let a = lead_len(s, CharClass::Whitespace);
    if a >= s.len() {
        seq![]
    } else {
        let t = s.skip(a as int);
        let b = lead_len(t, CharClass::NonWhitespace);
        proof {
            lemma_lead_len(t, CharClass::NonWhitespace);
            lemma_lead_len(s, CharClass::Whitespace);
            assert(t[0] == s[a as int]);
        }
        seq![t.take(b as int)] + words(t.skip(b as int))
    }
}

/// `s` without leading whitespace.
pub open spec fn trim_start(s: Seq<char>) -> Seq<char> {
    s.skip(lead_len(s, CharClass::Whitespace) as int)
}

/// `s` without trailing whitespace.
pub open spec fn trim_end(s: Seq<char>) -> Seq<char> {
    s.take(s.len() - trail_len(s, CharClass::Whitespace))
}

/// `s` without leading or trailing whitespace (what `str::trim` gives).
pub open spec fn trim(s: Seq<char>) -> Seq<char> {
    trim_end(trim_start(s))
}

/// The parts, in order, with `sep` between each two neighbours.
pub open spec fn join(parts: Seq<Seq<char>>, sep: Seq<char>) -> Seq<char>
    decreases parts.len(),
{
    if parts.len() == 0 {
        seq![]
    } else if parts.len() == 1 {
        parts[0]
    } else {
        join(parts.drop_last(), sep) + sep + parts.last()
    }
}

/// Whether `s` begins with `p`.
pub open spec fn starts_with(s: Seq<char>, p: Seq<char>) -> bool {
    p.len() <= s.len() && s.take(p.len() as int) == p
}

/// Whether `s` ends with `p`.
pub open spec fn ends_with(s: Seq<char>, p: Seq<char>) -> bool {
    p.len() <= s.len() && s.skip(s.len() - p.len()) == p
}

/// `s` without the prefix `p` where it has it, else `s` itself.
pub open spec fn strip_prefix_or_self(s: Seq<char>, p: Seq<char>) -> Seq<char> {
    if starts_with(s, p) {
        s.skip(p.len() as int)
    } else {
        s
    }
}

/// The element at `i`, or the empty sequence past the end.
pub open spec fn nth_or_empty(parts: Seq<Seq<char>>, i: int) -> Seq<char> {
    if 0 <= i < parts.len() {
        parts[i]
    } else {
        seq![]
    }
}

/// The elements from `i` on; none where there are fewer than `i`.
pub open spec fn from_index(parts: Seq<Seq<char>>, i: int) -> Seq<Seq<char>> {
    if i <= parts.len() {
        parts.skip(i)
    } else {
        seq![]
    }
}

/// The pieces of `cs` that `spans` marks out.
pub open spec fn span_seq(cs: Seq<char>, spans: Seq<(usize, usize)>) -> Seq<Seq<char>> {
    spans.map_values(|sp: (usize, usize)| cs.subrange(sp.0 as int, sp.1 as int))
}

/// Every span lies in `0..n` and runs forward.
pub open spec fn spans_within(spans: Seq<(usize, usize)>, n: int) -> bool {
    forall|i: int| #![trigger spans[i]] 0 <= i < spans.len() ==> spans[i].0 <= spans[i].1 <= n
}

proof fn lemma_span_seq_push(cs: Seq<char>, spans: Seq<(usize, usize)>, sp: (usize, usize))
    ensures
        span_seq(cs, spans.push(sp)) == span_seq(cs, spans).push(
            cs.subrange(sp.0 as int, sp.1 as int),
        ),
{
    assert(span_seq(cs, spans.push(sp)) =~= span_seq(cs, spans).push(
        cs.subrange(sp.0 as int, sp.1 as int),
    ));
}

/// The spans of the lines of `cs`.
pub fn line_spans(cs: &Vec<char>) -> (spans: Vec<(usize, usize)>)
    ensures
        spans_within(spans@, cs@.len() as int),
        span_seq(cs@, spans@) == lines(cs@),
{
    let n = cs.len();
    let mut spans: Vec<(usize, usize)> = Vec::new();
    let mut pos: usize = 0;
    assert(cs@.skip(0) == cs@);
    while pos < n
        invariant
            pos <= n == cs@.len(),
            spans_within(spans@, n as int),
            lines(cs@) == span_seq(cs@, spans@) + lines(cs@.skip(pos as int)),
        decreases n - pos,
    {
        let k = scan_forward(cs, pos, n, CharClass::Except('\n'));
        let ghost t = cs@.skip(pos as int);
        let ghost old_spans = spans@;
        assert(cs@.subrange(pos as int, n as int) == t);
        if k == n {
            spans.push((pos, n));
            proof {
                lemma_span_seq_push(cs@, old_spans, (pos, n));
                assert(lines(cs@.skip(n as int)) == Seq::<Seq<char>>::empty());
                assert(lines(t) == seq![t]);
                assert(lines(cs@) =~= span_seq(cs@, spans@) + lines(cs@.skip(n as int)));
            }
            pos = n;
        } else {
            let mut end = k;
            if end > pos && cs[end - 1] == '\r' {
                end = end - 1;
            }
            spans.push((pos, end));
            proof {
                lemma_span_seq_push(cs@, old_spans, (pos, end));
                assert(t.skip(k - pos + 1) == cs@.skip(k + 1));
                assert(strip_cr(t.take(k - pos)) == cs@.subrange(pos as int, end as int));
                assert(lines(t) == seq![strip_cr(t.take(k - pos))] + lines(t.skip(k - pos + 1)));
                assert(lines(cs@) =~= span_seq(cs@, spans@) + lines(cs@.skip(k + 1)));
            }
            pos = k + 1;
        }
    }
    spans
}

/// The spans of the words of `cs[from..to]`.
pub fn word_spans(cs: &Vec<char>, from: usize, to: usize) -> (spans: Vec<(usize, usize)>)
    requires
        from <= to <= cs@.len(),
    ensures
        spans_within(spans@, cs@.len() as int),
        span_seq(cs@, spans@) == words(cs@.subrange(from as int, to as int)),
{
    let mut spans: Vec<(usize, usize)> = Vec::new();
    let mut pos = from;
    while pos < to
        invariant
            from <= pos <= to <= cs@.len(),
            spans_within(spans@, cs@.len() as int),
            words(cs@.subrange(from as int, to as int)) == span_seq(cs@, spans@) + words(
                cs@.subrange(pos as int, to as int),
            ),
        decreases to - pos,
    {
        let ghost s = cs@.subrange(pos as int, to as int);
        let a = scan_forward(cs, pos, to, CharClass::Whitespace);
        if a == to {
            proof {
                assert(words(s) == Seq::<Seq<char>>::empty());
                assert(words(cs@.subrange(to as int, to as int)) == Seq::<Seq<char>>::empty());
                assert(words(cs@.subrange(from as int, to as int)) =~= span_seq(cs@, spans@)
                    + words(cs@.subrange(to as int, to as int)));
            }
            pos = to;
        } else {
            let b = scan_forward(cs, a, to, CharClass::NonWhitespace);
            let ghost old_spans = spans@;
            spans.push((a, b));
            proof {
                let t = s.skip(a - pos);
                assert(t == cs@.subrange(a as int, to as int));
                assert(t.take(b - a) == cs@.subrange(a as int, b as int));
                assert(t.skip(b - a) == cs@.subrange(b as int, to as int));
                assert(words(s) == seq![t.take(b - a)] + words(t.skip(b - a)));
                lemma_span_seq_push(cs@, old_spans, (a, b));
                assert(words(cs@.subrange(from as int, to as int)) =~= span_seq(cs@, spans@)
                    + words(cs@.subrange(b as int, to as int)));
            }
            pos = b;
        }
    }
    spans
}

/// The span of `cs[from..to]` without its leading and trailing whitespace.
pub fn trim_span(cs: &Vec<char>, from: usize, to: usize) -> (sp: (usize, usize))
    requires
        from <= to <= cs@.len(),
    ensures
        from <= sp.0 <= sp.1 <= to,
        cs@.subrange(sp.0 as int, sp.1 as int) == trim(cs@.subrange(from as int, to as int)),
{
    let a = scan_forward(cs, from, to, CharClass::Whitespace);
    let e = scan_backward(cs, a, to, CharClass::Whitespace);
    proof {
        let s = cs@.subrange(from as int, to as int);
        assert(trim_start(s) == cs@.subrange(a as int, to as int));
        assert(trim_end(cs@.subrange(a as int, to as int)) == cs@.subrange(a as int, e as int));
    }
    (a, e)
}

/// The pieces that `spans[first..]` marks out of `cs`, joined with `sep` between them.
pub fn join_spans(cs: &Vec<char>, spans: &Vec<(usize, usize)>, first: usize, sep: char) -> (s:
    String)
    requires
        spans_within(spans@, cs@.len() as int),
    ensures
        s@ == join(from_index(span_seq(cs@, spans@), first as int), seq![sep]),
{
    let ghost parts = span_seq(cs@, spans@);
    let mut s = String::new();
    if first >= spans.len() {
        assert(from_index(parts, first as int).len() == 0);
        return s;
    }
    let mut i = first;
    while i < spans.len()
        invariant
            first <= i <= spans@.len(),
            first < spans@.len(),
            spans_within(spans@, cs@.len() as int),
            parts == span_seq(cs@, spans@),
            s@ == join(parts.subrange(first as int, i as int), seq![sep]),
        decreases spans@.len() - i,
    {
        let (a, b) = spans[i];
        assert(spans@[i as int].0 <= spans@[i as int].1 <= cs@.len());
        let ghost prev = parts.subrange(first as int, i as int);
        let ghost next = parts.subrange(first as int, i + 1);
        if i > first {
            push_char(&mut s, sep);
        }
        push_range(&mut s, cs, a, b);
        proof {
            assert(next.drop_last() == prev);
            assert(next.last() == cs@.subrange(a as int, b as int));
            if i == first {
                assert(next.len() == 1);
                assert(s@ == next[0]);
            } else {
                assert(s@ == join(prev, seq![sep]) + seq![sep] + next.last());
            }
        }
        i = i + 1;
    }
    assert(parts.subrange(first as int, spans@.len() as int) == from_index(parts, first as int));
    s
}


/// Joining a part onto the front of a list of parts.
pub proof fn lemma_join_cons(x: Seq<char>, rest: Seq<Seq<char>>, sep: Seq<char>)
    ensures
        join(seq![x] + rest, sep) == if rest.len() == 0 {
            x
        } else {
            x + sep + join(rest, sep)
        },
    decreases rest.len(),
{
    let all = seq![x] + rest;
    if rest.len() == 0 {
        assert(all =~= seq![x]);
    } else if rest.len() == 1 {
        assert(all.drop_last() =~= seq![x]);
        assert(all.last() == rest[0]);
        assert(join(all.drop_last(), sep) == x);
        assert(join(all, sep) == join(all.drop_last(), sep) + sep + all.last());
        assert(join(rest, sep) == rest[0]);
    } else {
        assert(all.drop_last() =~= seq![x] + rest.drop_last());
        assert(all.last() == rest.last());
        assert(join(all, sep) == join(all.drop_last(), sep) + sep + all.last());
        assert(join(rest, sep) == join(rest.drop_last(), sep) + sep + rest.last());
        lemma_join_cons(x, rest.drop_last(), sep);
        assert(x + sep + join(rest.drop_last(), sep) + sep + rest.last() =~= x + sep + (join(
            rest.drop_last(),
            sep,
        ) + sep + rest.last()));
    }
}

/// Lines joined back with `'\n'` give the text again, up to a final `'\n'`, where the
/// text holds no carriage return.
pub proof fn law_join_lines(s: Seq<char>)
    requires
        !s.contains('\r'),
    ensures
        join(lines(s), seq!['\n']) == if s.len() > 0 && s.last() == '\n' {
            s.drop_last()
        } else {
            s
        },
    decreases s.len(),
{
    let nl = CharClass::Except('\n');
    if s.len() == 0 {
        return;
    }
    let k = lead_len(s, nl);
    lemma_lead_len(s, nl);
    if k >= s.len() {
        assert(in_class(nl, s[s.len() - 1]));
        return;
    }
    let head = s.take(k as int);
    let rest = s.skip(k + 1 as int);
    assert(!head.contains('\r')) by {
        if head.contains('\r') {
            let j = choose|j: int| 0 <= j < head.len() && head[j] == '\r';
            assert(s[j] == '\r');
        }
    }
    if head.len() > 0 {
        assert(head.last() != '\r') by {
            assert(head.contains(head.last()));
        }
    }
    assert(strip_cr(head) == head);
    assert(!rest.contains('\r')) by {
        if rest.contains('\r') {
            let j = choose|j: int| 0 <= j < rest.len() && rest[j] == '\r';
            assert(s[k + 1 + j] == '\r');
        }
    }
    law_join_lines(rest);
    lemma_join_cons(head, lines(rest), seq!['\n']);
    assert(s[k as int] == '\n');
    if rest.len() == 0 {
        assert(lines(rest).len() == 0);
        assert(s.drop_last() =~= head);
    } else {
        assert(lines(rest).len() > 0);
        assert(rest.last() == s.last());
        if rest.last() == '\n' {
            assert(head + seq!['\n'] + rest.drop_last() =~= s.drop_last());
        } else {
            assert(head + seq!['\n'] + rest =~= s);
        }
    }
}

/// Every word is non-empty and holds no whitespace.
pub proof fn law_words_are_words(s: Seq<char>)
    ensures
        forall|i: int|
            #![trigger words(s)[i]]
            0 <= i < words(s).len() ==> words(s)[i].len() > 0 && forall|j: int|
                0 <= j < words(s)[i].len() ==> !is_ws(#[trigger] words(s)[i][j]),
    decreases s.len(),
{
    let a = lead_len(s, CharClass::Whitespace);
    lemma_lead_len(s, CharClass::Whitespace);
    if a < s.len() {
        let t = s.skip(a as int);
        let b = lead_len(t, CharClass::NonWhitespace);
        lemma_lead_len(t, CharClass::NonWhitespace);
        assert(t[0] == s[a as int]);
        law_words_are_words(t.skip(b as int));
        let w = t.take(b as int);
        assert forall|j: int| 0 <= j < w.len() implies !is_ws(#[trigger] w[j]) by {
            assert(in_class(CharClass::NonWhitespace, t[j]));
        }
        assert forall|i: int| #![trigger words(s)[i]] 0 < i < words(s).len() implies words(s)[i]
            == words(t.skip(b as int))[i - 1] by {}
    }
}


/// Joining two non-empty lists of parts is joining each and putting `sep` between.
pub proof fn lemma_join_append(a: Seq<Seq<char>>, b: Seq<Seq<char>>, sep: Seq<char>)
    requires
        a.len() > 0,
        b.len() > 0,
    ensures
        join(a + b, sep) == join(a, sep) + sep + join(b, sep),
    decreases b.len(),
{
    let ab = a + b;
    assert(ab.last() == b.last());
    assert(join(ab, sep) == join(ab.drop_last(), sep) + sep + ab.last());
    if b.len() == 1 {
        assert(ab.drop_last() =~= a);
        assert(join(b, sep) == b[0]);
    } else {
        assert(ab.drop_last() =~= a + b.drop_last());
        lemma_join_append(a, b.drop_last(), sep);
        assert(join(b, sep) == join(b.drop_last(), sep) + sep + b.last());
        assert(join(a, sep) + sep + join(b.drop_last(), sep) + sep + b.last() =~= join(a, sep)
            + sep + (join(b.drop_last(), sep) + sep + b.last()));
    }
}


proof fn lemma_words_trim_start(s: Seq<char>)
    ensures
        words(trim_start(s)) == words(s),
{
    let ws = CharClass::Whitespace;
    let a = lead_len(s, ws);
    lemma_lead_len(s, ws);
    let u = trim_start(s);
    if a < s.len() {
        assert(u[0] == s[a as int]);
        lemma_lead_len_is(u, ws, 0);
        assert(u.skip(0) =~= u);
    } else {
        lemma_lead_len_is(u, ws, 0);
    }
}

proof fn lemma_words_append_ws(s: Seq<char>, w: Seq<char>)
    requires
        forall|j: int| 0 <= j < w.len() ==> is_ws(#[trigger] w[j]),
    ensures
        words(s + w) == words(s),
    decreases s.len(),
{
    let ws = CharClass::Whitespace;
    let nws = CharClass::NonWhitespace;
    let sw = s + w;
    let a = lead_len(s, ws);
    lemma_lead_len(s, ws);
    if a >= s.len() {
        assert forall|j: int| 0 <= j < sw.len() implies in_class(ws, #[trigger] sw[j]) by {
            if j < s.len() {
                assert(sw[j] == s[j]);
            } else {
                assert(sw[j] == w[j - s.len()]);
            }
        }
        lemma_lead_len_is(sw, ws, sw.len() as int);
        return;
    }
    assert forall|j: int| 0 <= j < a implies in_class(ws, #[trigger] sw[j]) by {
        assert(sw[j] == s[j]);
    }
    assert(sw[a as int] == s[a as int]);
    lemma_lead_len_is(sw, ws, a as int);
    let t = s.skip(a as int);
    let tw = sw.skip(a as int);
    assert(tw =~= t + w);
    let b = lead_len(t, nws);
    lemma_lead_len(t, nws);
    assert(t[0] == s[a as int]);
    assert forall|j: int| 0 <= j < b implies in_class(nws, #[trigger] tw[j]) by {
        assert(tw[j] == t[j]);
    }
    if b < t.len() {
        assert(tw[b as int] == t[b as int]);
    } else if b < tw.len() {
        assert(tw[b as int] == w[0]);
    }
    lemma_lead_len_is(tw, nws, b as int);
    assert(tw.take(b as int) =~= t.take(b as int));
    assert(tw.skip(b as int) =~= t.skip(b as int) + w);
    lemma_words_append_ws(t.skip(b as int), w);
}

/// Trimming does not change the words: splitting a trimmed line at whitespace
/// gives what splitting the line itself gives.
pub proof fn law_words_of_trim(s: Seq<char>)
    ensures
        words(trim(s)) == words(s),
{
    let ws = CharClass::Whitespace;
    let u = trim_start(s);
    lemma_words_trim_start(s);
    let k = trail_len(u, ws);
    lemma_trail_len(u, ws);
    let tail = u.skip(u.len() - k);
    assert forall|j: int| 0 <= j < tail.len() implies is_ws(#[trigger] tail[j]) by {
        assert(tail[j] == u[u.len() - k + j]);
        assert(in_class(ws, u[u.len() - k + j]));
    }
    assert(trim_end(u) + tail =~= u);
    lemma_words_append_ws(trim_end(u), tail);
}


/// The parts laid end to end.
pub open spec fn concat(parts: Seq<Seq<char>>) -> Seq<char>
    decreases parts.len(),
{
    if parts.len() == 0 {
        seq![]
    } else {
        concat(parts.drop_last()) + parts.last()
    }
}

/// `s` with every whitespace character removed.
pub open spec fn strip_ws(s: Seq<char>) -> Seq<char>
    decreases s.len(),
{
    if s.len() == 0 {
        seq![]
    } else if is_ws(s.last()) {
        strip_ws(s.drop_last())
    } else {
        strip_ws(s.drop_last()).push(s.last())
    }
}

proof fn lemma_concat_cons(x: Seq<char>, rest: Seq<Seq<char>>)
    ensures
        concat(seq![x] + rest) == x + concat(rest),
    decreases rest.len(),
{
    let all = seq![x] + rest;
    if rest.len() == 0 {
        assert(all.drop_last() =~= Seq::<Seq<char>>::empty());
        assert(all.last() == x);
        assert(concat(all.drop_last()) == Seq::<char>::empty());
        assert(concat(all) == concat(all.drop_last()) + all.last());
        assert(x + concat(rest) =~= x);
        assert(Seq::<char>::empty() + x =~= x);
    } else {
        assert(all.drop_last() =~= seq![x] + rest.drop_last());
        assert(all.last() == rest.last());
        lemma_concat_cons(x, rest.drop_last());
        assert(x + concat(rest.drop_last()) + rest.last() =~= x + (concat(rest.drop_last())
            + rest.last()));
    }
}

proof fn lemma_strip_ws_append(a: Seq<char>, b: Seq<char>)
    ensures
        strip_ws(a + b) == strip_ws(a) + strip_ws(b),
    decreases b.len(),
{
    if b.len() == 0 {
        assert(a + b =~= a);
        assert(strip_ws(a) + strip_ws(b) =~= strip_ws(a));
    } else {
        let ab = a + b;
        assert(ab.drop_last() =~= a + b.drop_last());
        assert(ab.last() == b.last());
        lemma_strip_ws_append(a, b.drop_last());
        if !is_ws(b.last()) {
            assert(strip_ws(a) + strip_ws(b.drop_last()).push(b.last()) =~= (strip_ws(a)
                + strip_ws(b.drop_last())).push(b.last()));
        }
    }
}

proof fn lemma_strip_ws_blank(s: Seq<char>)
    requires
        forall|j: int| 0 <= j < s.len() ==> is_ws(#[trigger] s[j]),
    ensures
        strip_ws(s) == Seq::<char>::empty(),
    decreases s.len(),
{
    if s.len() > 0 {
        assert(is_ws(s[s.len() - 1]));
        assert forall|j: int| 0 <= j < s.drop_last().len() implies is_ws(#[trigger] s.drop_last()[j]) by {
            assert(s.drop_last()[j] == s[j]);
        }
        lemma_strip_ws_blank(s.drop_last());
    }
}

proof fn lemma_strip_ws_solid(s: Seq<char>)
    requires
        forall|j: int| 0 <= j < s.len() ==> !is_ws(#[trigger] s[j]),
    ensures
        strip_ws(s) == s,
    decreases s.len(),
{
    if s.len() > 0 {
        assert(!is_ws(s[s.len() - 1]));
        assert forall|j: int| 0 <= j < s.drop_last().len() implies !is_ws(#[trigger] s.drop_last()[j]) by {
            assert(s.drop_last()[j] == s[j]);
        }
        lemma_strip_ws_solid(s.drop_last());
        assert(s.drop_last().push(s.last()) =~= s);
    }
}

/// No character is lost or added by splitting into words: the words laid end to end
/// are exactly the non-whitespace characters of `s`, in order.
pub proof fn law_words_cover(s: Seq<char>)
    ensures
        concat(words(s)) == strip_ws(s),
    decreases s.len(),
{
    let ws = CharClass::Whitespace;
    let nws = CharClass::NonWhitespace;
    let a = lead_len(s, ws);
    lemma_lead_len(s, ws);
    if a >= s.len() {
        assert forall|j: int| 0 <= j < s.len() implies is_ws(#[trigger] s[j]) by {
            assert(in_class(ws, s[j]));
        }
        lemma_strip_ws_blank(s);
        return;
    }
    let t = s.skip(a as int);
    let b = lead_len(t, nws);
    lemma_lead_len(t, nws);
    assert(t[0] == s[a as int]);
    let head = s.take(a as int);
    let w = t.take(b as int);
    let rest = t.skip(b as int);
    assert forall|j: int| 0 <= j < head.len() implies is_ws(#[trigger] head[j]) by {
        assert(head[j] == s[j]);
        assert(in_class(ws, s[j]));
    }
    assert forall|j: int| 0 <= j < w.len() implies !is_ws(#[trigger] w[j]) by {
        assert(in_class(nws, t[j]));
    }
    lemma_strip_ws_blank(head);
    lemma_strip_ws_solid(w);
    assert(s =~= head + (w + rest));
    lemma_strip_ws_append(head, w + rest);
    lemma_strip_ws_append(w, rest);
    law_words_cover(rest);
    lemma_concat_cons(w, words(rest));
    assert(strip_ws(head) + (strip_ws(w) + strip_ws(rest)) =~= w + strip_ws(rest));
}

/// No line holds a line feed.
pub proof fn law_lines_have_no_newline(s: Seq<char>)
    ensures
        forall|i: int| 0 <= i < lines(s).len() ==> !(#[trigger] lines(s)[i]).contains('\n'),
    decreases s.len(),
{
    let nl = CharClass::Except('\n');
    if s.len() == 0 {
        return;
    }
    let k = lead_len(s, nl);
    lemma_lead_len(s, nl);
    if k >= s.len() {
        assert(lines(s) == seq![s]);
        if s.contains('\n') {
            let j = choose|j: int| 0 <= j < s.len() && s[j] == '\n';
            assert(in_class(nl, s[j]));
        }
        return;
    }
    let first = strip_cr(s.take(k as int));
    law_lines_have_no_newline(s.skip(k + 1 as int));
    if first.contains('\n') {
        let j = choose|j: int| 0 <= j < first.len() && first[j] == '\n';
        assert(first[j] == s[j]);
        assert(in_class(nl, s[j]));
    }
    assert forall|i: int| 0 <= i < lines(s).len() implies !(#[trigger] lines(s)[i]).contains('\n') by {
        if i > 0 {
            assert(lines(s)[i] == lines(s.skip(k + 1 as int))[i - 1]);
        }
    }
}


/// A non-empty run without whitespace is one word.
pub proof fn law_words_solid(w: Seq<char>)
    requires
        w.len() > 0,
        forall|j: int| 0 <= j < w.len() ==> !is_ws(#[trigger] w[j]),
    ensures
        words(w) == seq![w],
{
    lemma_lead_len_is(w, CharClass::Whitespace, 0);
    assert(w.skip(0) =~= w);
    assert forall|j: int| 0 <= j < w.len() implies in_class(CharClass::NonWhitespace, #[trigger] w[j]) by {}
    lemma_lead_len_is(w, CharClass::NonWhitespace, w.len() as int);
    assert(w.take(w.len() as int) =~= w);
    assert(words(w.skip(w.len() as int)) == Seq::<Seq<char>>::empty());
    assert(seq![w] + Seq::<Seq<char>>::empty() =~= seq![w]);
}

/// A whitespace character separates words: the words of `a`, a whitespace character
/// and `b` are the words of `a` followed by the words of `b`.
pub proof fn law_words_split(a: Seq<char>, c: char, b: Seq<char>)
    requires
        is_ws(c),
    ensures
        words(a + seq![c] + b) == words(a) + words(b),
    decreases a.len(),
{
    let ws = CharClass::Whitespace;
    let nws = CharClass::NonWhitespace;
    let s = a + seq![c] + b;
    let al = lead_len(a, ws);
    lemma_lead_len(a, ws);
    if al >= a.len() {
        assert(words(a) == Seq::<Seq<char>>::empty());
        let b0 = lead_len(b, ws);
        lemma_lead_len(b, ws);
        let k: int = a.len() as int + 1 + b0 as int;
        assert forall|j: int| 0 <= j < k implies in_class(ws, #[trigger] s[j]) by {
            if j < a.len() {
                assert(s[j] == a[j]);
            } else if j > a.len() {
                assert(s[j] == b[j - a.len() - 1]);
            }
        }
        if k < s.len() {
            assert(s[k] == b[b0 as int]);
        }
        lemma_lead_len_is(s, ws, k);
        assert(s.skip(k) =~= b.skip(b0 as int));
        assert(words(a) + words(b) =~= words(b));
        return;
    }
    assert forall|j: int| 0 <= j < al implies in_class(ws, #[trigger] s[j]) by {
        assert(s[j] == a[j]);
    }
    assert(s[al as int] == a[al as int]);
    lemma_lead_len_is(s, ws, al as int);
    let ta = a.skip(al as int);
    let t = s.skip(al as int);
    assert(t =~= ta + seq![c] + b);
    let be = lead_len(ta, nws);
    lemma_lead_len(ta, nws);
    assert(ta[0] == a[al as int]);
    assert forall|j: int| 0 <= j < be implies in_class(nws, #[trigger] t[j]) by {
        assert(t[j] == ta[j]);
    }
    if be < ta.len() {
        assert(t[be as int] == ta[be as int]);
    } else {
        assert(t[be as int] == c);
    }
    lemma_lead_len_is(t, nws, be as int);
    let w = ta.take(be as int);
    let ra = ta.skip(be as int);
    assert(t.take(be as int) =~= w);
    assert(t.skip(be as int) =~= ra + seq![c] + b);
    law_words_split(ra, c, b);
    assert(words(a) == seq![w] + words(ra));
    assert(words(s) == seq![w] + words(ra + seq![c] + b));
    assert(seq![w] + (words(ra) + words(b)) =~= seq![w] + words(ra) + words(b));
}

/// `String::push`: appends one character to the string.
#[verifier::external_body]
pub fn push_char(s: &mut String, c: char)
    ensures
        final(s)@ == old(s)@.push(c),
{
    s.push(c);
}

/// Appends the characters `cs[from..to]` to `s`.
pub fn push_range(s: &mut String, cs: &Vec<char>, from: usize, to: usize)
    requires
        from <= to <= cs@.len(),
    ensures
        final(s)@ == old(s)@ + cs@.subrange(from as int, to as int),
{
    let ghost start = s@;
    let mut i = from;
    while i < to
        invariant
            from <= i <= to <= cs@.len(),
            s@ == start + cs@.subrange(from as int, i as int),
        decreases to - i,
    {
        push_char(s, cs[i]);
        i = i + 1;
        assert(cs@.subrange(from as int, i as int) == cs@.subrange(from as int, i - 1).push(
            cs@[i - 1],
        ));
    }
}

/// A new string made of the characters `cs[from..to]`.
pub fn string_of_range(cs: &Vec<char>, from: usize, to: usize) -> (s: String)
    requires
        from <= to <= cs@.len(),
    ensures
        s@ == cs@.subrange(from as int, to as int),
{
    let mut s = String::new();
    push_range(&mut s, cs, from, to);
    assert(s@ == cs@.subrange(from as int, to as int));
    s
}

/// The characters of `s`, in order.
pub fn chars_of(s: &str) -> (cs: Vec<char>)
    ensures
        cs@ == s@,
{
    let mut cs: Vec<char> = Vec::new();
    for c in it: s.chars()
        invariant
            cs@ == it.seq().take(it.index() as int),
    {
        cs.push(c);
    }
    cs
}

} // verus!
