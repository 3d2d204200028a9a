use vstd::prelude::*;
use vstd::std_specs::iter::IteratorSpec;

verus! {

// ---------------------------------------------------------------------------
// Mathematical model of the text processing
// ---------------------------------------------------------------------------

/// The characters that close a sentence.
pub open spec fn is_terminator(c: char) -> bool {
    c == '!' || c == '.' || c == '?'
}

/// Length of the first piece that `split_inclusive` on the terminators yields:
/// everything up to and including the first terminator, or all of `s`.
pub open spec fn first_piece_len(s: Seq<char>) -> nat
    decreases s.len(),
{
    if s.len() == 0 {
        0
    } else if is_terminator(s[0]) {
        1
    } else {
        1 + first_piece_len(s.drop_first())
    }
}

pub proof fn lemma_first_piece_len_bounds(s: Seq<char>)
    ensures
        s.len() > 0 ==> 1 <= first_piece_len(s) <= s.len(),
        s.len() == 0 ==> first_piece_len(s) == 0,
    decreases s.len(),
{
    if s.len() > 0 && !is_terminator(s[0]) {
        lemma_first_piece_len_bounds(s.drop_first());
    }
}

/// The pieces of `s` split after every terminator, each piece keeping its
/// terminator; a trailing piece without terminator is kept, an empty one is not.
pub open spec fn split_inclusive(s: Seq<char>) -> Seq<Seq<char>>
    decreases s.len(),
{
    if s.len() == 0 {
        seq![]
    } else {
        proof {
            lemma_first_piece_len_bounds(s);
        }
        let k = first_piece_len(s) as int;
        seq![s.take(k)] + split_inclusive(s.skip(k))
    }
}

pub open spec fn ends_with(p: Seq<char>, c: char) -> bool {
    p.len() > 0 && p.last() == c
}

/// The pieces that end with a question mark, in order.
pub open spec fn questions_of(pieces: Seq<Seq<char>>) -> Seq<Seq<char>>
    decreases pieces.len(),
{
    if pieces.len() == 0 {
        seq![]
    } else {
        let rest = questions_of(pieces.drop_last());
        if ends_with(pieces.last(), '?') {
            rest.push(pieces.last())
        } else {
            rest
        }
    }
}

/// The pieces that end with a full stop or an exclamation mark, in order.
pub open spec fn statements_of(pieces: Seq<Seq<char>>) -> Seq<Seq<char>>
    decreases pieces.len(),
{
    if pieces.len() == 0 {
        seq![]
    } else {
        let rest = statements_of(pieces.drop_last());
        if ends_with(pieces.last(), '.') || ends_with(pieces.last(), '!') {
            rest.push(pieces.last())
        } else {
            rest
        }
    }
}

/// `s` with every occurrence of `p` removed, scanning from the left and
/// removing non-overlapping occurrences (what `str::replace(p, "")` gives).
pub open spec fn remove_all(s: Seq<char>, p: Seq<char>) -> Seq<char>
    decreases s.len(),
{
    if p.len() == 0 || s.len() < p.len() {
        s
    } else if s.take(p.len() as int) == p {
        remove_all(s.skip(p.len() as int), p)
    } else {
        seq![s[0]] + remove_all(s.skip(1), p)
    }
}

/// Removes each pattern of `pats` in turn, first to last.
pub open spec fn remove_each(s: Seq<char>, pats: Seq<Seq<char>>) -> Seq<char>
    decreases pats.len(),
{
    if pats.len() == 0 {
        s
    } else {
        remove_all(remove_each(s, pats.drop_last()), pats.last())
    }
}

/// Newly found entries: each text, not yet printed.
pub open spec fn fresh(texts: Seq<Seq<char>>) -> Seq<(Seq<char>, bool)> {
    texts.map_values(|t: Seq<char>| (t, false))
}

/// The texts of a list of entries.
pub open spec fn texts(entries: Seq<(Seq<char>, bool)>) -> Seq<Seq<char>> {
    entries.map_values(|e: (Seq<char>, bool)| e.0)
}

/// The texts of the entries that were not printed yet, in order.
pub open spec fn unprinted(entries: Seq<(Seq<char>, bool)>) -> Seq<Seq<char>>
    decreases entries.len(),
{
    if entries.len() == 0 {
        seq![]
    } else {
        let rest = unprinted(entries.drop_last());
        if entries.last().1 {
            rest
        } else {
            rest.push(entries.last().0)
        }
    }
}

/// One entry is handed out exactly when its own flag is unset.
pub proof fn lemma_unprinted_one(text: Seq<char>, printed: bool)
    ensures
        unprinted(seq![(text, printed)]) == (if printed {
            Seq::<Seq<char>>::empty()
        } else {
            seq![text]
        }),
{
    let one = seq![(text, printed)];
    assert(one.drop_last() =~= Seq::<(Seq<char>, bool)>::empty());
    assert(unprinted(Seq::<(Seq<char>, bool)>::empty()) == Seq::<Seq<char>>::empty());
    assert(one.last() == (text, printed));
    assert(Seq::<Seq<char>>::empty().push(text) =~= seq![text]);
}

/// What is handed out of two lists of entries is what is handed out of the
/// first followed by what is handed out of the second: whether an entry is
/// handed out depends on its own flag alone, not on the entries before it.
pub proof fn lemma_unprinted_concat(a: Seq<(Seq<char>, bool)>, b: Seq<(Seq<char>, bool)>)
    ensures
        unprinted(a + b) == unprinted(a) + unprinted(b),
    decreases b.len(),
{
    if b.len() == 0 {
        assert(a + b =~= a);
        assert(unprinted(a) + unprinted(b) =~= unprinted(a));
    } else {
        lemma_unprinted_concat(a, b.drop_last());
        assert((a + b).drop_last() =~= a + b.drop_last());
        assert((a + b).last() == b.last());
        if !b.last().1 {
            assert(unprinted(a) + unprinted(b.drop_last()).push(b.last().0) =~= (unprinted(a)
                + unprinted(b.drop_last())).push(b.last().0));
        }
    }
}

/// The same entries, all marked as printed.
pub open spec fn all_printed(entries: Seq<(Seq<char>, bool)>) -> Seq<(Seq<char>, bool)> {
    entries.map_values(|e: (Seq<char>, bool)| (e.0, true))
}

pub open spec fn entries_view(v: Seq<(String, bool)>) -> Seq<(Seq<char>, bool)> {
    v.map_values(|e: (String, bool)| (e.0@, e.1))
}

pub open spec fn strings_view(v: Seq<String>) -> Seq<Seq<char>> {
    v.map_values(|s: String| s@)
}

/// What was handed out for printing is never handed out again: after all
/// entries are marked printed, none is left unprinted.
pub proof fn lemma_printed_once(entries: Seq<(Seq<char>, bool)>)
    ensures
        unprinted(all_printed(entries)) == Seq::<Seq<char>>::empty(),
    decreases entries.len(),
{
    if entries.len() > 0 {
        lemma_printed_once(entries.drop_last());
        assert(all_printed(entries).drop_last() =~= all_printed(entries.drop_last()));
    }
}

/// Splitting keeps every character: the pieces, put back together, are the text.
pub proof fn lemma_split_inclusive_flatten(s: Seq<char>)
    ensures
        split_inclusive(s).flatten() == s,
    decreases s.len(),
{
    if s.len() > 0 {
        lemma_first_piece_len_bounds(s);
        let k = first_piece_len(s) as int;
        lemma_split_inclusive_flatten(s.skip(k));
        assert((seq![s.take(k)] + split_inclusive(s.skip(k))).drop_first() =~= split_inclusive(
            s.skip(k),
        ));
        assert(s.take(k) + s.skip(k) =~= s);
    }
}

/// Every recorded question ends with a question mark, and every recorded
/// sentence with a full stop or an exclamation mark.
pub proof fn lemma_entries_end_with_their_mark(pieces: Seq<Seq<char>>)
    ensures
        forall|i: int|
            0 <= i < questions_of(pieces).len() ==> ends_with(#[trigger] questions_of(pieces)[i], '?'),
        forall|i: int|
            0 <= i < statements_of(pieces).len() ==> ends_with(#[trigger] statements_of(pieces)[i], '.')
                || ends_with(statements_of(pieces)[i], '!'),
    decreases pieces.len(),
{
    if pieces.len() > 0 {
        let prev = pieces.drop_last();
        lemma_entries_end_with_their_mark(prev);
        let q = questions_of(pieces);
        assert forall|i: int| 0 <= i < q.len() implies ends_with(#[trigger] q[i], '?') by {
            if i < questions_of(prev).len() {
                assert(q[i] == questions_of(prev)[i]);
            }
        }
        let st = statements_of(pieces);
        assert forall|i: int| 0 <= i < st.len() implies ends_with(#[trigger] st[i], '.') || ends_with(
            st[i],
            '!',
        ) by {
            if i < statements_of(prev).len() {
                assert(st[i] == statements_of(prev)[i]);
            }
        }
    }
}

// ---------------------------------------------------------------------------
// Removing recorded sentences from the text
// ---------------------------------------------------------------------------

/// Whether `x` ends with `e`.
pub open spec fn has_suffix(x: Seq<char>, e: Seq<char>) -> bool {
    e.len() <= x.len() && x.subrange(x.len() - e.len(), x.len() as int) == e
}

/// A sentence as splitting yields it: closed by a terminator, with no other
/// terminator in it.
pub open spec fn one_sentence(e: Seq<char>) -> bool {
    &&& e.len() > 0
    &&& is_terminator(e.last())
    &&& forall|j: int| 0 <= j < e.len() - 1 ==> !is_terminator(#[trigger] e[j])
}

/// No character of `s` is a terminator.
pub open spec fn no_terminator(s: Seq<char>) -> bool {
    forall|j: int| 0 <= j < s.len() ==> !is_terminator(#[trigger] s[j])
}

/// Every terminator in `s` closes an occurrence of one of `pats`.
pub open spec fn closed_by(s: Seq<char>, pats: Seq<Seq<char>>) -> bool {
    forall|i: int|
        0 <= i < s.len() && is_terminator(#[trigger] s[i]) ==> exists|k: int|
            0 <= k < pats.len() && has_suffix(s.take(i + 1), #[trigger] pats[k])
}

/// Every pattern is one sentence.
pub open spec fn all_sentences(pats: Seq<Seq<char>>) -> bool {
    forall|k: int| 0 <= k < pats.len() ==> one_sentence(#[trigger] pats[k])
}

/// A sentence that ends `x` starts after every other terminator of `x`.
proof fn lemma_sentence_suffix_after(x: Seq<char>, e: Seq<char>, m: int)
    requires
        one_sentence(e),
        has_suffix(x, e),
        0 <= m < x.len() - 1,
        is_terminator(x[m]),
    ensures
        m < x.len() - e.len(),
{
    if m >= x.len() - e.len() {
        let j = m - (x.len() - e.len());
        assert(x.subrange(x.len() - e.len(), x.len() as int)[j] == x[m]);
        assert(!is_terminator(e[j]));
    }
}

/// A suffix that fits in the last part of a concatenation ends that part, and
/// a suffix of the last part ends the concatenation.
proof fn lemma_suffix_concat(a: Seq<char>, b: Seq<char>, e: Seq<char>)
    ensures
        e.len() <= b.len() ==> (has_suffix(a + b, e) <==> has_suffix(b, e)),
{
    if e.len() <= b.len() {
        let x = a + b;
        assert(x.subrange(x.len() - e.len(), x.len() as int) =~= b.subrange(
            b.len() - e.len(),
            b.len() as int,
        ));
    }
}

/// Removing every occurrence of a sentence `p` from `s`, after the text `w`
/// already kept: if every terminator of `s` closes an occurrence of `p` inside
/// `s`, or an occurrence of one of `f` reaching back into `w`, then every
/// terminator left closes an occurrence of one of `f`.
proof fn lemma_remove_all_closed(w: Seq<char>, s: Seq<char>, p: Seq<char>, f: Seq<Seq<char>>)
    requires
        one_sentence(p),
        all_sentences(f),
        closed_by(w, f),
        forall|i: int|
            0 <= i < s.len() && is_terminator(#[trigger] s[i]) ==> has_suffix(s.take(i + 1), p)
                || exists|k: int| 0 <= k < f.len() && has_suffix(w + s.take(i + 1), #[trigger] f[k]),
    ensures
        closed_by(w + remove_all(s, p), f),
    decreases s.len(),
{
    if s.len() < p.len() {
        let x = w + s;
        assert(remove_all(s, p) == s);
        assert forall|i: int| 0 <= i < x.len() && is_terminator(#[trigger] x[i]) implies exists|k: int|
            0 <= k < f.len() && has_suffix(x.take(i + 1), #[trigger] f[k]) by {
            if i < w.len() {
                assert(x.take(i + 1) =~= w.take(i + 1));
                assert(w[i] == x[i]);
            } else {
                let j = i - w.len();
                assert(s[j] == x[i]);
                assert(x.take(i + 1) =~= w + s.take(j + 1));
                assert(!has_suffix(s.take(j + 1), p));
            }
        }
    } else if s.take(p.len() as int) == p {
        let n = p.len() as int;
        let t = s.skip(n);
        assert(remove_all(s, p) == remove_all(t, p));
        assert forall|i: int| 0 <= i < t.len() && is_terminator(#[trigger] t[i]) implies has_suffix(
            t.take(i + 1),
            p,
        ) || exists|k: int| 0 <= k < f.len() && has_suffix(w + t.take(i + 1), #[trigger] f[k]) by {
            assert(s[i + n] == t[i]);
            let x = s.take(i + n + 1);
            assert(x =~= s.take(n) + t.take(i + 1));
            assert(x[n - 1] == p[n - 1]);
            if has_suffix(x, p) {
                lemma_sentence_suffix_after(x, p, n - 1);
                lemma_suffix_concat(s.take(n), t.take(i + 1), p);
            } else {
                let k = choose|k: int| 0 <= k < f.len() && has_suffix(w + x, #[trigger] f[k]);
                let y = w + x;
                assert(y[w.len() + n - 1] == p[n - 1]);
                lemma_sentence_suffix_after(y, f[k], w.len() + n - 1);
                assert(y =~= (w + s.take(n)) + t.take(i + 1));
                lemma_suffix_concat(w + s.take(n), t.take(i + 1), f[k]);
                lemma_suffix_concat(w, t.take(i + 1), f[k]);
            }
        }
        lemma_remove_all_closed(w, t, p, f);
    } else {
        let w2 = w.push(s[0]);
        let t = s.skip(1);
        assert(remove_all(s, p) == seq![s[0]] + remove_all(t, p));
        assert(w + remove_all(s, p) =~= w2 + remove_all(t, p));
        assert forall|i: int| 0 <= i < w2.len() && is_terminator(#[trigger] w2[i]) implies exists|k: int|
            0 <= k < f.len() && has_suffix(w2.take(i + 1), #[trigger] f[k]) by {
            if i < w.len() {
                assert(w2.take(i + 1) =~= w.take(i + 1));
                assert(w[i] == w2[i]);
            } else {
                assert(s[0] == w2[i]);
                assert(is_terminator(s[0]));
                assert(w2.take(i + 1) =~= w + s.take(1));
                if has_suffix(s.take(1), p) {
                    assert(s.take(1).subrange(0, 1) =~= s.take(1));
                    assert(s.take(1) =~= s.take(p.len() as int));
                } else {
                    let k = choose|k: int| 0 <= k < f.len() && has_suffix(w + s.take(1), #[trigger] f[k]);
                    assert(has_suffix(w2.take(i + 1), f[k]));
                }
            }
        }
        assert forall|i: int| 0 <= i < t.len() && is_terminator(#[trigger] t[i]) implies has_suffix(
            t.take(i + 1),
            p,
        ) || exists|k: int| 0 <= k < f.len() && has_suffix(w2 + t.take(i + 1), #[trigger] f[k]) by {
            assert(s[i + 1] == t[i]);
            let x = s.take(i + 2);
            assert(x =~= s.take(1) + t.take(i + 1));
            assert(w + x =~= w2 + t.take(i + 1));
            if has_suffix(x, p) {
                if p.len() == i + 2 {
                    assert(x.subrange(0, i + 2) =~= x);
                    assert(s.take(p.len() as int) =~= x);
                }
                lemma_suffix_concat(s.take(1), t.take(i + 1), p);
            }
        }
        lemma_remove_all_closed(w2, t, p, f);
    }
}

/// Removing sentences one after another: if every terminator of `s` closes an
/// occurrence of one of the sentences `pats`, none is left once each of them
/// was removed in turn.
proof fn lemma_remove_each_closed(s: Seq<char>, pats: Seq<Seq<char>>, k: int)
    requires
        all_sentences(pats),
        closed_by(s, pats),
        0 <= k <= pats.len(),
    ensures
        closed_by(remove_each(s, pats.take(k)), pats.skip(k)),
    decreases k,
{
    if k == 0 {
        assert(pats.take(0) =~= Seq::<Seq<char>>::empty());
        assert(pats.skip(0) =~= pats);
    } else {
        lemma_remove_each_closed(s, pats, k - 1);
        let prev = remove_each(s, pats.take(k - 1));
        assert(pats.take(k).drop_last() =~= pats.take(k - 1));
        assert(remove_each(s, pats.take(k)) == remove_all(prev, pats[k - 1]));
        let f = pats.skip(k);
        assert(closed_by(Seq::<char>::empty(), f));
        assert forall|i: int| 0 <= i < prev.len() && is_terminator(#[trigger] prev[i]) implies has_suffix(
            prev.take(i + 1),
            pats[k - 1],
        ) || exists|j: int| 0 <= j < f.len() && has_suffix(
            Seq::<char>::empty() + prev.take(i + 1),
            #[trigger] f[j],
        ) by {
            let j = choose|j: int|
                0 <= j < pats.skip(k - 1).len() && has_suffix(
                    prev.take(i + 1),
                    #[trigger] pats.skip(k - 1)[j],
                );
            assert(Seq::<char>::empty() + prev.take(i + 1) =~= prev.take(i + 1));
            if j > 0 {
                assert(f[j - 1] == pats.skip(k - 1)[j]);
            }
        }
        assert forall|j: int| 0 <= j < f.len() implies one_sentence(#[trigger] f[j]) by {
            assert(f[j] == pats[k + j]);
        }
        lemma_remove_all_closed(Seq::<char>::empty(), prev, pats[k - 1], f);
        assert(Seq::<char>::empty() + remove_all(prev, pats[k - 1]) =~= remove_all(prev, pats[k - 1]));
    }
}

/// Removing one list of patterns and then another is removing the two lists
/// one after the other.
proof fn lemma_remove_each_append(s: Seq<char>, a: Seq<Seq<char>>, b: Seq<Seq<char>>)
    ensures
        remove_each(remove_each(s, a), b) == remove_each(s, a + b),
    decreases b.len(),
{
    if b.len() == 0 {
        assert(a + b =~= a);
    } else {
        lemma_remove_each_append(s, a, b.drop_last());
        assert((a + b).drop_last() =~= a + b.drop_last());
        assert((a + b).last() == b.last());
    }
}

/// A text without terminators holds no sentence: removing one leaves it as it is.
proof fn lemma_remove_all_absent(s: Seq<char>, p: Seq<char>)
    requires
        no_terminator(s),
        one_sentence(p),
    ensures
        remove_all(s, p) == s,
    decreases s.len(),
{
    if s.len() >= p.len() {
        let n = p.len() as int;
        assert(s.take(n)[n - 1] == s[n - 1]);
        assert(s.take(n) != p);
        let t = s.skip(1);
        assert forall|j: int| 0 <= j < t.len() implies !is_terminator(#[trigger] t[j]) by {
            assert(t[j] == s[j + 1]);
        }
        lemma_remove_all_absent(t, p);
        assert(seq![s[0]] + t =~= s);
    }
}

proof fn lemma_remove_each_absent(s: Seq<char>, pats: Seq<Seq<char>>)
    requires
        no_terminator(s),
        all_sentences(pats),
    ensures
        remove_each(s, pats) == s,
    decreases pats.len(),
{
    if pats.len() > 0 {
        lemma_remove_each_absent(s, pats.drop_last());
        lemma_remove_all_absent(s, pats.last());
    }
}

/// The first piece has no terminator but possibly its last character, and it
/// ends with a terminator unless it is all of `s`.
proof fn lemma_first_piece_shape(s: Seq<char>)
    requires
        s.len() > 0,
    ensures
        1 <= first_piece_len(s) <= s.len(),
        forall|j: int| 0 <= j < first_piece_len(s) - 1 ==> !is_terminator(#[trigger] s[j]),
        is_terminator(s[first_piece_len(s) - 1]) || first_piece_len(s) == s.len(),
    decreases s.len(),
{
    let t = s.drop_first();
    if is_terminator(s[0]) {
        assert(first_piece_len(s) == 1);
    } else if s.len() == 1 {
        assert(t.len() == 0);
        assert(first_piece_len(t) == 0);
        assert(first_piece_len(s) == 1);
    } else {
        lemma_first_piece_shape(t);
        assert(first_piece_len(s) == 1 + first_piece_len(t));
        assert forall|j: int| 0 <= j < first_piece_len(s) - 1 implies !is_terminator(
            #[trigger] s[j],
        ) by {
            if j > 0 {
                assert(s[j] == t[j - 1]);
            }
        }
        assert(s[first_piece_len(s) - 1] == t[first_piece_len(t) - 1]);
    }
}

/// No terminator but possibly the last character.
pub open spec fn at_most_one_sentence(e: Seq<char>) -> bool {
    &&& e.len() > 0
    &&& forall|j: int| 0 <= j < e.len() - 1 ==> !is_terminator(#[trigger] e[j])
}

/// Every piece of the split holds no terminator but possibly its last character.
proof fn lemma_split_pieces_shape(s: Seq<char>)
    ensures
        forall|j: int|
            0 <= j < split_inclusive(s).len() ==> at_most_one_sentence(
                #[trigger] split_inclusive(s)[j],
            ),
    decreases s.len(),
{
    if s.len() > 0 {
        lemma_first_piece_shape(s);
        let k = first_piece_len(s) as int;
        let t = s.skip(k);
        lemma_split_pieces_shape(t);
        let pieces = split_inclusive(s);
        assert(pieces == seq![s.take(k)] + split_inclusive(t));
        assert forall|j: int| 0 <= j < pieces.len() implies at_most_one_sentence(
            #[trigger] pieces[j],
        ) by {
            if j > 0 {
                assert(pieces[j] == split_inclusive(t)[j - 1]);
            } else {
                assert forall|m: int| 0 <= m < s.take(k).len() - 1 implies !is_terminator(
                    #[trigger] s.take(k)[m],
                ) by {
                    assert(s.take(k)[m] == s[m]);
                }
            }
        }
    }
}

/// Every terminator of `s` closes a piece of the split that ends with it.
proof fn lemma_split_closes(s: Seq<char>)
    ensures
        forall|i: int|
            0 <= i < s.len() && is_terminator(#[trigger] s[i]) ==> exists|j: int|
                0 <= j < split_inclusive(s).len() && is_terminator(split_inclusive(s)[j].last())
                    && has_suffix(s.take(i + 1), #[trigger] split_inclusive(s)[j]),
    decreases s.len(),
{
    if s.len() > 0 {
        lemma_first_piece_shape(s);
        let k = first_piece_len(s) as int;
        let t = s.skip(k);
        lemma_split_closes(t);
        let pieces = split_inclusive(s);
        assert(pieces == seq![s.take(k)] + split_inclusive(t));
        assert forall|i: int| 0 <= i < s.len() && is_terminator(#[trigger] s[i]) implies exists|j: int|
            0 <= j < pieces.len() && is_terminator(pieces[j].last()) && has_suffix(
                s.take(i + 1),
                #[trigger] pieces[j],
            ) by {
            if i < k {
                assert(i == k - 1);
                assert(pieces[0] == s.take(k));
                assert(s.take(i + 1).subrange(0, i + 1) =~= s.take(k));
                assert(has_suffix(s.take(i + 1), pieces[0]));
            } else {
                assert(t[i - k] == s[i]);
                let j = choose|j: int|
                    0 <= j < split_inclusive(t).len() && is_terminator(
                        split_inclusive(t)[j].last(),
                    ) && has_suffix(t.take(i - k + 1), #[trigger] split_inclusive(t)[j]);
                assert(pieces[j + 1] == split_inclusive(t)[j]);
                assert(s.take(i + 1) =~= s.take(k) + t.take(i - k + 1));
                lemma_suffix_concat(s.take(k), t.take(i - k + 1), split_inclusive(t)[j]);
            }
        }
    }
}

/// A piece that ends with a question mark is among the questions, and one that
/// ends with a full stop or an exclamation mark among the statements.
proof fn lemma_piece_recorded(pieces: Seq<Seq<char>>, j: int)
    requires
        0 <= j < pieces.len(),
    ensures
        ends_with(pieces[j], '?') ==> exists|m: int|
            0 <= m < questions_of(pieces).len() && #[trigger] questions_of(pieces)[m] == pieces[j],
        ends_with(pieces[j], '.') || ends_with(pieces[j], '!') ==> exists|m: int|
            0 <= m < statements_of(pieces).len() && #[trigger] statements_of(pieces)[m]
                == pieces[j],
    decreases pieces.len(),
{
    let prev = pieces.drop_last();
    if j < pieces.len() - 1 {
        lemma_piece_recorded(prev, j);
        assert(prev[j] == pieces[j]);
        if ends_with(pieces[j], '?') {
            let m = choose|m: int|
                0 <= m < questions_of(prev).len() && #[trigger] questions_of(prev)[m] == prev[j];
            assert(questions_of(pieces)[m] == questions_of(prev)[m]);
        }
        if ends_with(pieces[j], '.') || ends_with(pieces[j], '!') {
            let m = choose|m: int|
                0 <= m < statements_of(prev).len() && #[trigger] statements_of(prev)[m] == prev[j];
            assert(statements_of(pieces)[m] == statements_of(prev)[m]);
        }
    } else {
        if ends_with(pieces[j], '?') {
            assert(questions_of(pieces)[questions_of(prev).len() as int] == pieces[j]);
        }
        if ends_with(pieces[j], '.') || ends_with(pieces[j], '!') {
            assert(statements_of(pieces)[statements_of(prev).len() as int] == pieces[j]);
        }
    }
}

/// What a `Query` holds: the text not yet split into sentences, and the
/// questions and the other sentences found so far, each with a flag that
/// tells whether it was already handed out for printing.
#[verifier::ext_equal]
pub struct QueryView {
    pub text: Seq<char>,
    pub questions: Seq<(Seq<char>, bool)>,
    pub sentences: Seq<(Seq<char>, bool)>,
}

impl QueryView {
    /// Every recorded question and sentence is one sentence: closed by a
    /// terminator, with no other terminator in it.
    pub open spec fn wf(self) -> bool {
        all_sentences(texts(self.questions)) && all_sentences(texts(self.sentences))
    }
}

/// What `parse_questions` makes of `q`: the pieces of the text that end with
/// `?` join the questions and those that end with `.` or `!` the sentences, all
/// not yet printed; then every recorded question, and then every recorded
/// sentence, is removed from the text.
pub open spec fn parsed(q: QueryView) -> QueryView {
    let pieces = split_inclusive(q.text);
    let questions = q.questions + fresh(questions_of(pieces));
    let sentences = q.sentences + fresh(statements_of(pieces));
    QueryView {
        text: remove_each(remove_each(q.text, texts(questions)), texts(sentences)),
        questions,
        sentences,
    }
}

proof fn lemma_texts_fresh(entries: Seq<(Seq<char>, bool)>, found: Seq<Seq<char>>)
    ensures
        texts(entries + fresh(found)) == texts(entries) + found,
{
    assert(texts(entries + fresh(found)) =~= texts(entries) + found);
}

/// The questions and statements found among pieces with no terminator but at
/// their end are sentences.
proof fn lemma_found_are_sentences(pieces: Seq<Seq<char>>)
    requires
        forall|j: int| 0 <= j < pieces.len() ==> at_most_one_sentence(#[trigger] pieces[j]),
    ensures
        all_sentences(questions_of(pieces)),
        all_sentences(statements_of(pieces)),
    decreases pieces.len(),
{
    if pieces.len() > 0 {
        let prev = pieces.drop_last();
        assert forall|j: int| 0 <= j < prev.len() implies at_most_one_sentence(#[trigger] prev[j]) by {
            assert(prev[j] == pieces[j]);
        }
        lemma_found_are_sentences(prev);
        assert(at_most_one_sentence(pieces[pieces.len() - 1]));
        let q = questions_of(pieces);
        assert forall|m: int| 0 <= m < q.len() implies one_sentence(#[trigger] q[m]) by {
            if m < questions_of(prev).len() {
                assert(q[m] == questions_of(prev)[m]);
            }
        }
        let st = statements_of(pieces);
        assert forall|m: int| 0 <= m < st.len() implies one_sentence(#[trigger] st[m]) by {
            if m < statements_of(prev).len() {
                assert(st[m] == statements_of(prev)[m]);
            }
        }
    }
}

/// Parsing keeps every recorded question and sentence one sentence.
pub proof fn lemma_parsed_wf(q: QueryView)
    requires
        q.wf(),
    ensures
        parsed(q).wf(),
{
    let pieces = split_inclusive(q.text);
    lemma_split_pieces_shape(q.text);
    lemma_found_are_sentences(pieces);
    lemma_texts_fresh(q.questions, questions_of(pieces));
    lemma_texts_fresh(q.sentences, statements_of(pieces));
    let tq = texts(q.questions);
    let fq = questions_of(pieces);
    assert forall|k: int| 0 <= k < (tq + fq).len() implies one_sentence(#[trigger] (tq + fq)[k]) by {
        if k < tq.len() {
            assert((tq + fq)[k] == tq[k]);
        } else {
            assert((tq + fq)[k] == fq[k - tq.len()]);
        }
    }
    let ts = texts(q.sentences);
    let fs = statements_of(pieces);
    assert forall|k: int| 0 <= k < (ts + fs).len() implies one_sentence(#[trigger] (ts + fs)[k]) by {
        if k < ts.len() {
            assert((ts + fs)[k] == ts[k]);
        } else {
            assert((ts + fs)[k] == fs[k - ts.len()]);
        }
    }
}

/// Parsing a text without `!`, `.` or `?` changes nothing: no question or
/// sentence is found and the text stays as it is.
pub proof fn lemma_parse_without_terminators(q: QueryView)
    requires
        q.wf(),
        no_terminator(q.text),
    ensures
        parsed(q) == q,
{
    let t = q.text;
    let pieces = split_inclusive(t);
    let none = Seq::<Seq<char>>::empty();
    assert(split_inclusive(Seq::<char>::empty()) == none);
    if t.len() > 0 {
        lemma_first_piece(t, t.len() as int);
        assert(t.skip(t.len() as int) =~= Seq::<char>::empty());
        assert(t.take(t.len() as int) =~= t);
        assert(pieces == seq![t.take(t.len() as int)] + split_inclusive(t.skip(t.len() as int)));
        assert(pieces =~= seq![t]);
        assert(pieces.drop_last() =~= none);
        assert(pieces.last() == t);
        assert(!is_terminator(t[t.len() - 1]));
        assert(questions_of(pieces.drop_last()) == none);
        assert(statements_of(pieces.drop_last()) == none);
    }
    assert(questions_of(pieces) =~= none);
    assert(statements_of(pieces) =~= none);
    let r = parsed(q);
    assert(r.questions =~= q.questions);
    assert(r.sentences =~= q.sentences);
    lemma_remove_each_absent(t, texts(q.questions));
    lemma_remove_each_absent(t, texts(q.sentences));
    assert(r =~= q);
}

/// After parsing, no `!`, `.` or `?` is left in the text: every one of them
/// closed a piece that was recorded and then removed.
pub proof fn lemma_parsed_text_has_no_terminator(q: QueryView)
    requires
        q.wf(),
    ensures
        no_terminator(parsed(q).text),
{
    let t = q.text;
    let pieces = split_inclusive(t);
    let r = parsed(q);
    lemma_parsed_wf(q);
    let tq = texts(r.questions);
    let ts = texts(r.sentences);
    let all = tq + ts;
    lemma_texts_fresh(q.questions, questions_of(pieces));
    lemma_texts_fresh(q.sentences, statements_of(pieces));
    assert forall|k: int| 0 <= k < all.len() implies one_sentence(#[trigger] all[k]) by {
        if k < tq.len() {
            assert(all[k] == tq[k]);
        } else {
            assert(all[k] == ts[k - tq.len()]);
        }
    }
    lemma_split_closes(t);
    lemma_split_pieces_shape(t);
    assert forall|i: int| 0 <= i < t.len() && is_terminator(#[trigger] t[i]) implies exists|k: int|
        0 <= k < all.len() && has_suffix(t.take(i + 1), #[trigger] all[k]) by {
        let j = choose|j: int|
            0 <= j < pieces.len() && is_terminator(pieces[j].last()) && has_suffix(
                t.take(i + 1),
                #[trigger] pieces[j],
            );
        lemma_piece_recorded(pieces, j);
        assert(at_most_one_sentence(pieces[j]));
        let n0 = texts(q.questions).len();
        if ends_with(pieces[j], '?') {
            let m = choose|m: int|
                0 <= m < questions_of(pieces).len() && #[trigger] questions_of(pieces)[m]
                    == pieces[j];
            assert(tq[n0 + m] == questions_of(pieces)[m]);
            assert(all[n0 + m] == tq[n0 + m]);
        } else {
            let m = choose|m: int|
                0 <= m < statements_of(pieces).len() && #[trigger] statements_of(pieces)[m]
                    == pieces[j];
            let n1 = texts(q.sentences).len();
            assert(ts[n1 + m] == statements_of(pieces)[m]);
            assert(all[tq.len() + n1 + m] == ts[n1 + m]);
        }
    }
    lemma_remove_each_closed(t, all, all.len() as int);
    assert(all.take(all.len() as int) =~= all);
    assert(all.skip(all.len() as int) =~= Seq::<Seq<char>>::empty());
    lemma_remove_each_append(t, tq, ts);
    let x = r.text;
    assert forall|i: int| 0 <= i < x.len() implies !is_terminator(#[trigger] x[i]) by {
        if is_terminator(x[i]) {
            let k = choose|k: int|
                0 <= k < Seq::<Seq<char>>::empty().len() && has_suffix(
                    x.take(i + 1),
                    #[trigger] Seq::<Seq<char>>::empty()[k],
                );
        }
    }
}

/// Parsing twice is parsing once: after one parse no `!`, `.` or `?` is left
/// in the text, so a second parse finds nothing and changes nothing.
pub proof fn lemma_parse_idempotent(q: QueryView)
    requires
        q.wf(),
    ensures
        parsed(q).wf(),
        parsed(parsed(q)) == parsed(q),
{
    lemma_parsed_wf(q);
    lemma_parsed_text_has_no_terminator(q);
    lemma_parse_without_terminators(parsed(q));
}

// ---------------------------------------------------------------------------
// Executable helpers on characters
// ---------------------------------------------------------------------------

/// The characters of `s`, in order.
pub fn chars_of(s: &str) -> (v: Vec<char>)
    ensures
        v@ == s@,
{
    let mut v: Vec<char> = Vec::new();
    let mut it = s.chars();
    loop
        invariant
            v@ + it.remaining() == s@,
            it.obeys_prophetic_iter_laws(),
            it.decrease() is Some,
        ensures
            v@ == s@,
        decreases it.decrease()->0,
    {
        let ghost before = it.remaining();
        match it.next() {
            Some(c) => {
                v.push(c);
                assert(v@ + it.remaining() =~= s@) by {
                    assert(before =~= seq![c] + it.remaining());
                }
            },
            None => {
                assert(v@ =~= s@);
                break ;
            },
        }
    }
    v
}

/// Whether `p` occurs in `t` at position `i`.
pub(crate) fn occurs_at(t: &Vec<char>, p: &Vec<char>, i: usize) -> (b: bool)
    requires
        i + p@.len() <= t@.len(),
    ensures
        b == (t@.subrange(i as int, i + p@.len()) == p@),
{
    let mut j: usize = 0;
    let tl = t.len();
    while j < p.len()
        invariant
            tl == t@.len(),
            i + p@.len() <= t@.len(),
            j <= p@.len(),
            forall|k: int| 0 <= k < j ==> t@[i + k] == p@[k],
        decreases p@.len() - j,
    {
        if t[i + j] != p[j] {
            assert(t@.subrange(i as int, i + p@.len())[j as int] != p@[j as int]);
            return false;
        }
        j = j + 1;
    }
    assert(t@.subrange(i as int, i + p@.len()) =~= p@);
    true
}

proof fn lemma_remove_all_short(s: Seq<char>, p: Seq<char>)
    requires
        s.len() < p.len(),
    ensures
        remove_all(s, p) == s,
{
}

/// `text` with every occurrence of `pattern` removed, as `str::replace` with
/// an empty replacement gives it.
pub fn remove_all_occurrences(text: &str, pattern: &str) -> (res: String)
    ensures
        res@ == remove_all(text@, pattern@),
{
    let t = chars_of(text);
    let p = chars_of(pattern);
    let n = t.len();
    let plen = p.len();
    if plen == 0 {
        return String::from_str(text);
    }
    let mut out = String::new();
    let mut run: usize = 0;
    let mut i: usize = 0;
    assert(t@.skip(0) =~= t@);
    assert(t@.subrange(0, 0) + t@ =~= t@);
    while plen <= n - i
        invariant
            t@ == text@,
            p@ == pattern@,
            n == t@.len(),
            plen == p@.len(),
            plen > 0,
            run <= i <= n,
            remove_all(t@, p@) == out@ + t@.subrange(run as int, i as int) + remove_all(
                t@.skip(i as int),
                p@,
            ),
        decreases n - i,
    {
        let ghost rest = t@.skip(i as int);
        assert(rest.take(plen as int) =~= t@.subrange(i as int, i + plen));
        if occurs_at(&t, &p, i) {
            assert(rest.skip(plen as int) =~= t@.skip(i + plen));
            let piece = text.substring_char(run, i);
            out.append(piece);
            i = i + plen;
            run = i;
            assert(t@.subrange(run as int, i as int) =~= Seq::<char>::empty());
            assert(remove_all(t@, p@) =~= out@ + t@.subrange(run as int, i as int) + remove_all(
                t@.skip(i as int),
                p@,
            ));
        } else {
            assert(rest.skip(1) =~= t@.skip(i + 1));
            assert(t@.subrange(run as int, i as int) + seq![t@[i as int]] =~= t@.subrange(
                run as int,
                i + 1,
            ));
            i = i + 1;
            assert(remove_all(t@, p@) =~= out@ + t@.subrange(run as int, i as int) + remove_all(
                t@.skip(i as int),
                p@,
            ));
        }
    }
    proof {
        lemma_remove_all_short(t@.skip(i as int), p@);
        assert(t@.subrange(run as int, i as int) + t@.skip(i as int) =~= t@.subrange(
            run as int,
            n as int,
        ));
    }
    let tail = text.substring_char(run, n);
    out.append(tail);
    assert(out@ =~= remove_all(text@, pattern@));
    out
}

proof fn lemma_first_piece(s: Seq<char>, end: int)
    requires
        0 <= end <= s.len(),
        forall|j: int| 0 <= j < end ==> !is_terminator(#[trigger] s[j]),
        end == s.len() || is_terminator(s[end]),
    ensures
        first_piece_len(s) == (if end < s.len() {
            end + 1
        } else {
            end
        }),
    decreases end,
{
    if end > 0 {
        lemma_first_piece(s.drop_first(), end - 1);
    }
}


/// A copy of the entries.
fn copy_entries(entries: &Vec<(String, bool)>) -> (copy: Vec<(String, bool)>)
    ensures
        entries_view(copy@) == entries_view(entries@),
{
    let mut copy: Vec<(String, bool)> = Vec::new();
    let mut i: usize = 0;
    while i < entries.len()
        invariant
            i <= entries@.len(),
            entries_view(copy@) == entries_view(entries@).take(i as int),
        decreases entries@.len() - i,
    {
        let ghost before = entries_view(copy@);
        let text = entries[i].0.clone();
        copy.push((text, entries[i].1));
        assert(entries_view(copy@) =~= before.push(entries_view(entries@)[i as int]));
        assert(entries_view(copy@) =~= entries_view(entries@).take(i + 1));
        i = i + 1;
    }
    assert(entries_view(entries@).take(i as int) =~= entries_view(entries@));
    copy
}

/// The entries, all marked as printed; the texts of those that were not
/// printed before are appended, in order, to `lines`.
fn printed_copy(entries: &Vec<(String, bool)>, lines: &mut Vec<String>) -> (marked: Vec<(String, bool)>)
    ensures
        entries_view(marked@) == all_printed(entries_view(entries@)),
        strings_view(final(lines)@) == strings_view(old(lines)@) + unprinted(
            entries_view(entries@),
        ),
{
    let ghost e0 = entries_view(entries@);
    let ghost l0 = strings_view(lines@);
    let mut marked: Vec<(String, bool)> = Vec::new();
    let mut i: usize = 0;
    assert(all_printed(e0.take(0)) =~= Seq::<(Seq<char>, bool)>::empty());
    assert(l0 + unprinted(e0.take(0)) =~= l0);
    while i < entries.len()
        invariant
            i <= entries@.len(),
            e0 == entries_view(entries@),
            entries_view(marked@) == all_printed(e0.take(i as int)),
            strings_view(lines@) == l0 + unprinted(e0.take(i as int)),
        decreases entries@.len() - i,
    {
        let ghost mb = entries_view(marked@);
        let ghost lb = strings_view(lines@);
        assert(e0[i as int] == (entries@[i as int].0@, entries@[i as int].1));
        if !entries[i].1 {
            let copy = entries[i].0.clone();
            lines.push(copy);
            assert(strings_view(lines@) =~= lb.push(e0[i as int].0));
        }
        let text = entries[i].0.clone();
        marked.push((text, true));
        proof {
            assert(e0.take(i + 1).drop_last() =~= e0.take(i as int));
            assert(entries_view(marked@) =~= mb.push((e0[i as int].0, true)));
            assert(entries_view(marked@) =~= all_printed(e0.take(i + 1)));
            assert(strings_view(lines@) =~= l0 + unprinted(e0.take(i + 1)));
        }
        i = i + 1;
    }
    assert(e0.take(i as int) =~= e0);
    marked
}

// ---------------------------------------------------------------------------
// Query
// ---------------------------------------------------------------------------

/// Collects transcribed text and splits it into questions and other sentences.
pub struct Query {
    text: String,
    questions: Vec<(String, bool)>,
    sentences: Vec<(String, bool)>,
}

impl View for Query {
    type V = QueryView;

    closed spec fn view(&self) -> QueryView {
        QueryView {
            text: self.text@,
            questions: entries_view(self.questions@),
            sentences: entries_view(self.sentences@),
        }
    }
}

impl Query {
    /// Every recorded question and sentence is one sentence.
    #[verifier::type_invariant]
    spec fn entries_are_sentences(self) -> bool {
        self@.wf()
    }

    /// An empty query: no text, no questions, no sentences.
    pub fn new() -> (q: Self)
        ensures
            q@.text == Seq::<char>::empty(),
            q@.questions == Seq::<(Seq<char>, bool)>::empty(),
            q@.sentences == Seq::<(Seq<char>, bool)>::empty(),
    {
        let q = Query { text: String::new(), questions: Vec::new(), sentences: Vec::new() };
        assert(q@.questions =~= Seq::<(Seq<char>, bool)>::empty());
        assert(q@.sentences =~= Seq::<(Seq<char>, bool)>::empty());
        q
    }

    /// The text not yet split into sentences.
    pub fn text(&self) -> (s: &str)
        ensures
            s@ == self@.text,
    {
        self.text.as_str()
    }

    /// Appends `text` to the text not yet split.
    pub fn extend(&mut self, text: &str)
        ensures
            final(self)@.text == old(self)@.text + text@,
            final(self)@.questions == old(self)@.questions,
            final(self)@.sentences == old(self)@.sentences,
    {
        proof {
            use_type_invariant(&*self);
        }
        let mut extended = self.text.clone();
        extended.append(text);
        self.text = extended;
    }

    /// Hands out, for printing, the questions and then the sentences that were
    /// not handed out before, and marks all of them as printed.
    pub fn take_new_questions(&mut self) -> (lines: Vec<String>)
        ensures
            strings_view(lines@) == unprinted(old(self)@.questions) + unprinted(
                old(self)@.sentences,
            ),
            final(self)@.questions == all_printed(old(self)@.questions),
            final(self)@.sentences == all_printed(old(self)@.sentences),
            final(self)@.text == old(self)@.text,
    {
        proof {
            use_type_invariant(&*self);
            assert(texts(all_printed(old(self)@.questions)) =~= texts(old(self)@.questions));
            assert(texts(all_printed(old(self)@.sentences)) =~= texts(old(self)@.sentences));
        }
        let mut lines: Vec<String> = Vec::new();
        assert(strings_view(lines@) =~= Seq::<Seq<char>>::empty());
        let questions = printed_copy(&self.questions, &mut lines);
        let sentences = printed_copy(&self.sentences, &mut lines);
        self.questions = questions;
        self.sentences = sentences;
        lines
    }

    /// Splits the pending text after each `!`, `.` and `?`; records the pieces
    /// that end with `?` as new questions and those that end with `.` or `!` as
    /// new sentences (not yet printed); then removes from the text every
    /// occurrence of every recorded question, then of every recorded sentence.
    /// No `!`, `.` or `?` is left in the text afterwards, and a text without
    /// them is left as it is, with nothing recorded: parsing twice is parsing
    /// once.
    pub fn parse_questions(&mut self)
        ensures
            final(self)@ == parsed(old(self)@),
            no_terminator(final(self)@.text),
            no_terminator(old(self)@.text) ==> final(self)@ == old(self)@,
    {
        proof {
            use_type_invariant(&*self);
        }
        let ghost t0 = self@.text;
        let ghost q0 = self@.questions;
        let ghost s0 = self@.sentences;
        let mut questions = copy_entries(&self.questions);
        let mut sentences = copy_entries(&self.sentences);
        let mut text = self.text.clone();
        let chars = chars_of(text.as_str());
        let n = chars.len();
        let mut start: usize = 0;
        let ghost mut done: Seq<Seq<char>> = seq![];
        assert(t0.skip(0) =~= t0);
        assert(fresh(questions_of(done)) =~= Seq::<(Seq<char>, bool)>::empty());
        assert(fresh(statements_of(done)) =~= Seq::<(Seq<char>, bool)>::empty());
        while start < n
            invariant
                chars@ == t0,
                text@ == t0,
                n == t0.len(),
                start <= n,
                split_inclusive(t0) == done + split_inclusive(t0.skip(start as int)),
                entries_view(questions@) == q0 + fresh(questions_of(done)),
                entries_view(sentences@) == s0 + fresh(statements_of(done)),
            decreases n - start,
        {
            let mut end = start;
            while end < n && !(chars[end] == '!' || chars[end] == '.' || chars[end] == '?')
                invariant
                    chars@ == t0,
                    n == t0.len(),
                    start <= end <= n,
                    forall|j: int| start <= j < end ==> !is_terminator(#[trigger] t0[j]),
                decreases n - end,
            {
                end = end + 1;
            }
            let stop = if end < n {
                end + 1
            } else {
                end
            };
            let ghost rest = t0.skip(start as int);
            proof {
                assert forall|j: int| 0 <= j < end - start implies !is_terminator(
                    #[trigger] rest[j],
                ) by {
                    assert(rest[j] == t0[start + j]);
                }
                lemma_first_piece(rest, end - start);
                assert(rest.skip(stop - start) =~= t0.skip(stop as int));
                assert(rest.take(stop - start) =~= t0.subrange(start as int, stop as int));
            }
            let piece_str = text.as_str().substring_char(start, stop);
            let last = chars[stop - 1];
            let ghost piece = t0.subrange(start as int, stop as int);
            assert(piece.last() == last);
            if last == '?' {
                let ghost qv = entries_view(questions@);
                questions.push((String::from_str(piece_str), false));
                assert(entries_view(questions@) =~= qv.push((piece, false)));
            }
            if last == '.' || last == '!' {
                let ghost sv = entries_view(sentences@);
                sentences.push((String::from_str(piece_str), false));
                assert(entries_view(sentences@) =~= sv.push((piece, false)));
            }
            proof {
                let nd = done.push(piece);
                assert(nd.drop_last() =~= done);
                assert(split_inclusive(t0) =~= nd + split_inclusive(t0.skip(stop as int)));
                assert(fresh(questions_of(nd)) =~= (if last == '?' {
                    fresh(questions_of(done)).push((piece, false))
                } else {
                    fresh(questions_of(done))
                }));
                assert(fresh(statements_of(nd)) =~= (if last == '.' || last == '!' {
                    fresh(statements_of(done)).push((piece, false))
                } else {
                    fresh(statements_of(done))
                }));
                done = nd;
            }
            start = stop;
        }
        proof {
            assert(t0.skip(n as int) =~= Seq::<char>::empty());
            assert(split_inclusive(t0) =~= done);
        }
        let ghost qs = texts(entries_view(questions@));
        let mut i: usize = 0;
        while i < questions.len()
            invariant
                i <= questions@.len(),
                qs == texts(entries_view(questions@)),
                entries_view(questions@) == q0 + fresh(questions_of(done)),
                entries_view(sentences@) == s0 + fresh(statements_of(done)),
                split_inclusive(t0) == done,
                text@ == remove_each(t0, qs.take(i as int)),
            decreases questions@.len() - i,
        {
            let updated = remove_all_occurrences(text.as_str(), questions[i].0.as_str());
            text = updated;
            proof {
                assert(qs[i as int] == questions@[i as int].0@);
                assert(qs.take(i + 1).drop_last() =~= qs.take(i as int));
            }
            i = i + 1;
        }
        assert(qs.take(i as int) =~= qs);
        let ghost t1 = text@;
        let ghost ss = texts(entries_view(sentences@));
        let mut k: usize = 0;
        while k < sentences.len()
            invariant
                k <= sentences@.len(),
                ss == texts(entries_view(sentences@)),
                entries_view(questions@) == q0 + fresh(questions_of(done)),
                entries_view(sentences@) == s0 + fresh(statements_of(done)),
                split_inclusive(t0) == done,
                t1 == remove_each(t0, texts(entries_view(questions@))),
                text@ == remove_each(t1, ss.take(k as int)),
            decreases sentences@.len() - k,
        {
            let updated = remove_all_occurrences(text.as_str(), sentences[k].0.as_str());
            text = updated;
            proof {
                assert(ss[k as int] == sentences@[k as int].0@);
                assert(ss.take(k + 1).drop_last() =~= ss.take(k as int));
            }
            k = k + 1;
        }
        assert(ss.take(k as int) =~= ss);
        proof {
            lemma_parsed_wf(old(self)@);
            lemma_parsed_text_has_no_terminator(old(self)@);
            if no_terminator(old(self)@.text) {
                lemma_parse_without_terminators(old(self)@);
            }
        }
        self.questions = questions;
        self.sentences = sentences;
        self.text = text;
        assert(self@ =~= parsed(old(self)@));
    }
}

} // verus!
