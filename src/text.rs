//! Character-level helpers: whitespace-separated words and building strings.

use vstd::prelude::*;
use vstd::string::*;

verus! {

/// Unicode `White_Space`, the set that `char::is_whitespace` tests.
pub open spec fn is_ws(c: char) -> bool {
    ('\u{9}' <= c && c <= '\u{d}') || c == ' ' || c == '\u{85}' || c == '\u{a0}'
        || c == '\u{1680}' || ('\u{2000}' <= c && c <= '\u{200a}') || c == '\u{2028}'
        || c == '\u{2029}' || c == '\u{202f}' || c == '\u{205f}' || c == '\u{3000}'
}

/// Whether `c` is Unicode whitespace.
pub fn is_whitespace(c: char) -> (r: bool)
    ensures
        r == is_ws(c),
{
    ('\u{9}' <= c && c <= '\u{d}') || c == ' ' || c == '\u{85}' || c == '\u{a0}'
        || c == '\u{1680}' || ('\u{2000}' <= c && c <= '\u{200a}') || c == '\u{2028}'
        || c == '\u{2029}' || c == '\u{202f}' || c == '\u{205f}' || c == '\u{3000}'
}

/// The maximal runs of non-whitespace characters of `s`, in order.
pub open spec fn words(s: Seq<char>) -> Seq<Seq<char>>
    decreases s.len(),
{
    if s.len() == 0 {
        Seq::empty()
    } else {
        let prev = words(s.drop_last());
        let c = s.last();
        if is_ws(c) {
            prev
        } else if s.len() >= 2 && !is_ws(s[s.len() - 2]) {
            prev.update(prev.len() - 1, prev.last().push(c))
        } else {
            prev.push(seq![c])
        }
    }
}

/// Words joined by single spaces.
pub open spec fn join_words(ws: Seq<Seq<char>>) -> Seq<char>
    decreases ws.len(),
{
    if ws.len() == 0 {
        Seq::empty()
    } else if ws.len() == 1 {
        ws[0]
    } else {
        join_words(ws.drop_last()) + seq![' '] + ws.last()
    }
}

/// The character sequences held by a sequence of vectors.
pub open spec fn char_views(vs: Seq<Vec<char>>) -> Seq<Seq<char>> {
    vs.map_values(|v: Vec<char>| v@)
}

/// A nonempty run without whitespace is one word.
pub proof fn lemma_single_word(w: Seq<char>)
    requires
        w.len() > 0,
        forall|i: int| 0 <= i < w.len() ==> !is_ws(#[trigger] w[i]),
    ensures
        words(w) == seq![w],
    decreases w.len(),
{
    if w.len() == 1 {
        assert(w.drop_last() =~= Seq::<char>::empty());
        assert(seq![w.last()] =~= w);
        assert(!is_ws(w.last()));
        assert(words(w.drop_last()) =~= Seq::<Seq<char>>::empty());
        assert(words(w) == Seq::<Seq<char>>::empty().push(seq![w.last()]));
        assert(Seq::<Seq<char>>::empty().push(seq![w.last()]) =~= seq![w]);
    } else {
        let init = w.drop_last();
        lemma_single_word(init);
        assert(!is_ws(w[w.len() - 2]));
        assert(init.push(w.last()) =~= w);
        assert(!is_ws(w.last()));
        let prev = words(init);
        assert(prev =~= seq![init]);
        assert(words(w) == prev.update(prev.len() - 1, prev.last().push(w.last())));
        assert(prev.update(prev.len() - 1, prev.last().push(w.last())) =~= seq![w]);
    }
}

/// A run without whitespace after text that ends in whitespace (or after
/// nothing) adds one word.
pub proof fn lemma_append_word(s: Seq<char>, b: Seq<char>)
    requires
        s.len() > 0 ==> is_ws(s.last()),
        b.len() > 0,
        forall|i: int| 0 <= i < b.len() ==> !is_ws(#[trigger] b[i]),
    ensures
        words(s + b) == words(s).push(b),
    decreases b.len(),
{
    let sb = s + b;
    assert(!is_ws(b[b.len() - 1]));
    if b.len() == 1 {
        assert(sb.drop_last() =~= s);
        assert(sb.last() == b[0]);
        assert(seq![b[0]] =~= b);
    } else {
        let init = b.drop_last();
        assert forall|i: int| 0 <= i < init.len() implies !is_ws(#[trigger] init[i]) by {
            assert(init[i] == b[i]);
        }
        lemma_append_word(s, init);
        assert(sb.drop_last() =~= s + init);
        assert(sb[sb.len() - 2] == b[b.len() - 2]);
        let prev = words(s + init);
        assert(sb.last() == b.last());
        assert(init.push(b.last()) =~= b);
        assert(prev.last() == init);
        assert(prev.update(prev.len() - 1, prev.last().push(sb.last())) =~= words(s).push(b));
    }
}

/// Splits `s` into its whitespace-separated words.
pub fn split_words(s: &Vec<char>) -> (r: Vec<Vec<char>>)
    ensures
        char_views(r@) == words(s@),
{
    let mut acc: Vec<Vec<char>> = Vec::new();
    let mut cur: Vec<char> = Vec::new();
    let mut in_word = false;
    let mut i: usize = 0;
    while i < s.len()
        invariant
            i <= s@.len(),
            in_word == (i > 0 && !is_ws(s@[i - 1])),
            in_word ==> words(s@.subrange(0, i as int)) == char_views(acc@).push(cur@),
            !in_word ==> words(s@.subrange(0, i as int)) == char_views(acc@),
        decreases s@.len() - i,
    {
        let c = s[i];
        let ghost pre = s@.subrange(0, i as int);
        let ghost next = s@.subrange(0, i + 1);
        assert(next.drop_last() =~= pre);
        if is_whitespace(c) {
            if in_word {
                let ghost before = acc@;
                acc.push(cur);
                cur = Vec::new();
                assert(char_views(acc@) =~= char_views(before).push(char_views(acc@).last()));
            }
            in_word = false;
        } else {
            if in_word {
                cur.push(c);
                proof {
                    let prev = words(pre);
                    assert(prev.update(prev.len() - 1, prev.last().push(c)) =~= char_views(
                        acc@,
                    ).push(cur@));
                }
            } else {
                cur = Vec::new();
                cur.push(c);
                assert(cur@ =~= seq![c]);
            }
            in_word = true;
        }
        i = i + 1;
    }
    if in_word {
        let ghost before = acc@;
        acc.push(cur);
        assert(char_views(acc@) =~= char_views(before).push(char_views(acc@).last()));
    }
    assert(s@.subrange(0, s@.len() as int) =~= s@);
    acc
}

/// Joins `ws[from..]` with single spaces.
pub fn join_from(ws: &Vec<Vec<char>>, from: usize) -> (r: Vec<char>)
    requires
        from <= ws@.len(),
    ensures
        r@ == join_words(char_views(ws@).subrange(from as int, ws@.len() as int)),
{
    let mut out: Vec<char> = Vec::new();
    let mut k: usize = from;
    while k < ws.len()
        invariant
            from <= k <= ws@.len(),
            out@ == join_words(char_views(ws@).subrange(from as int, k as int)),
        decreases ws@.len() - k,
    {
        let ghost done = char_views(ws@).subrange(from as int, k as int);
        let ghost more = char_views(ws@).subrange(from as int, k + 1);
        assert(more.drop_last() =~= done);
        if k > from {
            out.push(' ');
        }
        let w = &ws[k];
        let mut j: usize = 0;
        let ghost base = out@;
        while j < w.len()
            invariant
                j <= w@.len(),
                out@ == base + w@.subrange(0, j as int),
            decreases w@.len() - j,
        {
            out.push(w[j]);
            j = j + 1;
            assert(out@ =~= base + w@.subrange(0, j as int));
        }
        assert(w@.subrange(0, w@.len() as int) =~= w@);
        k = k + 1;
        proof {
            if more.len() == 1 {
                assert(out@ =~= more[0]);
            } else {
                assert(out@ =~= join_words(done) + seq![' '] + more.last());
            }
        }
    }
    out
}

/// The characters of `s`.
pub fn chars_of(s: &str) -> (r: Vec<char>)
    ensures
        r@ == s@,
{
    let n = s.unicode_len();
    let mut out: Vec<char> = Vec::new();
    let mut i: usize = 0;
    while i < n
        invariant
            n == s@.len(),
            i <= n,
            out@ == s@.subrange(0, i as int),
        decreases n - i,
    {
        out.push(s.get_char(i));
        i = i + 1;
        assert(out@ =~= s@.subrange(0, i as int));
    }
    assert(out@ =~= s@);
    out
}

/// Relies on `String::push`: it appends one character.
#[verifier::external_body]
pub(crate) fn push_char(s: &mut String, c: char)
    ensures
        final(s)@ == old(s)@.push(c),
{
    s.push(c)
}

/// A string of the characters in `v`.
pub fn string_of(v: &Vec<char>) -> (r: String)
    ensures
        r@ == v@,
{
    let mut out = String::new();
    let mut i: usize = 0;
    while i < v.len()
        invariant
            i <= v@.len(),
            out@ == v@.subrange(0, i as int),
        decreases v@.len() - i,
    {
        push_char(&mut out, v[i]);
        i = i + 1;
        assert(out@ =~= v@.subrange(0, i as int));
    }
    assert(out@ =~= v@);
    out
}

} // verus!
