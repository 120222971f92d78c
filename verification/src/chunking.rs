use vstd::prelude::*;
use crate::text::{is_wspace, chars_vec, string_from_chars, copy_chars, append_chars};

verus! {

/// The lines of a text: segments separated by newline characters, where a
/// newline closes the line before it rather than opening an empty one.
pub open spec fn spec_lines(s: Seq<char>) -> Seq<Seq<char>>
    decreases s.len(),
{
    if s.len() == 0 {
        Seq::empty()
    } else {
        let p = s.drop_last();
        let c = s.last();
        let l = spec_lines(p);
        if c == '\n' {
            if p.len() == 0 || p.last() == '\n' {
                l.push(Seq::empty())
            } else {
                l
            }
        } else {
            if p.len() == 0 || p.last() == '\n' {
                l.push(seq![c])
            } else {
                l.update(l.len() - 1, l.last().push(c))
            }
        }
    }
}

/// The whitespace-separated words of a text, in order.
pub open spec fn spec_words(s: Seq<char>) -> Seq<Seq<char>>
    decreases s.len(),
{
    if s.len() == 0 {
        Seq::empty()
    } else {
        let p = s.drop_last();
        let c = s.last();
        let w = spec_words(p);
        if is_wspace(c) {
            w
        } else if p.len() == 0 || is_wspace(p.last()) {
            w.push(seq![c])
        } else {
            w.update(w.len() - 1, w.last().push(c))
        }
    }
}

/// A word is non-empty and contains no whitespace.
pub open spec fn word_ok(w: Seq<char>) -> bool {
    w.len() > 0 && (forall|j: int| 0 <= j < w.len() ==> !is_wspace(#[trigger] w[j]))
}

proof fn lemma_words_last_open(s: Seq<char>)
    requires
        s.len() > 0,
        !is_wspace(s.last()),
    ensures
        spec_words(s).len() > 0,
    decreases s.len(),
{
    let p = s.drop_last();
    if p.len() == 0 || is_wspace(p.last()) {
    } else {
        lemma_words_last_open(p);
    }
}

proof fn lemma_words_wf(s: Seq<char>)
    ensures
        forall|k: int| 0 <= k < spec_words(s).len() ==> word_ok(#[trigger] spec_words(s)[k]),
    decreases s.len(),
{
    if s.len() == 0 {
    } else {
        let p = s.drop_last();
        let c = s.last();
        lemma_words_wf(p);
        let w = spec_words(p);
        if is_wspace(c) {
        } else if p.len() == 0 || is_wspace(p.last()) {
            assert(word_ok(seq![c])) by {
                assert(seq![c].len() == 1);
                assert(seq![c][0] == c);
            }
        } else {
            lemma_words_last_open(p);
            assert(w.len() > 0);
            assert(word_ok(w.last().push(c))) by {
                assert(word_ok(w[w.len() - 1]));
                assert(forall|j: int|
                    0 <= j < w.last().len() ==> w.last().push(c)[j] == w.last()[j]);
                assert(w.last().push(c)[w.last().len() as int] == c);
            }
        }
    }
}

/// A finished chunk is non-empty and within the size limit, unless it holds
/// a single overlong word, in which case it contains no space.
pub open spec fn chunk_ok(ch: Seq<char>, size: nat) -> bool {
    ch.len() > 0 && (ch.len() <= size || (forall|j: int| 0 <= j < ch.len() ==> ch[j] != ' '))
}

/// Every finished chunk is acceptable.
pub open spec fn chunks_ok(done: Seq<Seq<char>>, size: nat) -> bool {
    forall|k: int| 0 <= k < done.len() ==> chunk_ok(#[trigger] done[k], size)
}

/// A chunk still being filled is strictly under the size limit, or is an
/// overlong word (with perhaps a newline) and so contains no space.
pub open spec fn open_ok(cur: Seq<char>, size: nat) -> bool {
    cur.len() < size || (forall|j: int| 0 <= j < cur.len() ==> cur[j] != ' ')
}

/// Feeding one word to the splitter: a word that would overflow the current
/// chunk (counting its separating space) closes that chunk and starts a new
/// one; a chunk that reaches exactly the limit is closed at once; no word is
/// ever split, so an overlong word stands alone.
pub open spec fn chunk_step(done: Seq<Seq<char>>, cur: Seq<char>, w: Seq<char>, size: nat) -> (
    Seq<Seq<char>>,
    Seq<char>,
) {
    let sep: nat = if cur.len() > 0 && cur.last() != '\n' {
        1
    } else {
        0
    };
    if cur.len() + sep + w.len() > size {
        let done2 = if cur.len() > 0 {
            done.push(cur)
        } else {
            done
        };
        if w.len() == size {
            (done2.push(w), Seq::empty())
        } else {
            (done2, w)
        }
    } else {
        let cur2 = if sep == 1 {
            cur.push(' ') + w
        } else {
            cur + w
        };
        if cur2.len() == size {
            (done.push(cur2), Seq::empty())
        } else {
            (done, cur2)
        }
    }
}

/// Ending a source line: a newline is appended to the pending chunk when
/// there is one, counted toward the size like any character.
pub open spec fn line_end_step(done: Seq<Seq<char>>, cur: Seq<char>, size: nat) -> (
    Seq<Seq<char>>,
    Seq<char>,
) {
    if cur.len() == 0 {
        (done, cur)
    } else {
        let cur2 = cur.push('\n');
        if cur2.len() == size {
            (done.push(cur2), Seq::empty())
        } else {
            (done, cur2)
        }
    }
}

/// Feeding a line's words to the splitter, in order.
pub open spec fn chunk_words(
    done: Seq<Seq<char>>,
    cur: Seq<char>,
    ws: Seq<Seq<char>>,
    size: nat,
) -> (Seq<Seq<char>>, Seq<char>)
    decreases ws.len(),
{
    if ws.len() == 0 {
        (done, cur)
    } else {
        let st = chunk_step(done, cur, ws[0], size);
        chunk_words(st.0, st.1, ws.drop_first(), size)
    }
}

/// Feeding whole lines to the splitter, each followed by its line end.
pub open spec fn chunk_lines(
    done: Seq<Seq<char>>,
    cur: Seq<char>,
    ls: Seq<Seq<char>>,
    size: nat,
) -> (Seq<Seq<char>>, Seq<char>)
    decreases ls.len(),
{
    if ls.len() == 0 {
        (done, cur)
    } else {
        let st = chunk_words(done, cur, spec_words(ls[0]), size);
        let st2 = line_end_step(st.0, st.1, size);
        chunk_lines(st2.0, st2.1, ls.drop_first(), size)
    }
}

/// The chunks of a text at a given size limit: its lines' words, packed in
/// order, with the last pending chunk closed at the end.
pub open spec fn spec_chunks(s: Seq<char>, size: nat) -> Seq<Seq<char>> {
    let st = chunk_lines(Seq::empty(), Seq::empty(), spec_lines(s), size);
    if st.1.len() == 0 {
        st.0
    } else {
        st.0.push(st.1)
    }
}

proof fn lemma_chunk_words_snoc(
    done: Seq<Seq<char>>,
    cur: Seq<char>,
    ws: Seq<Seq<char>>,
    w: Seq<char>,
    size: nat,
)
    ensures
        chunk_words(done, cur, ws.push(w), size).0 == chunk_step(
            chunk_words(done, cur, ws, size).0,
            chunk_words(done, cur, ws, size).1,
            w,
            size,
        ).0,
        chunk_words(done, cur, ws.push(w), size).1 == chunk_step(
            chunk_words(done, cur, ws, size).0,
            chunk_words(done, cur, ws, size).1,
            w,
            size,
        ).1,
    decreases ws.len(),
{
    if ws.len() == 0 {
        assert(ws.push(w)[0] == w);
        assert(ws.push(w).drop_first() =~= Seq::<Seq<char>>::empty());
        let st = chunk_step(done, cur, w, size);
        assert(chunk_words(done, cur, ws.push(w), size) == chunk_words(
            st.0,
            st.1,
            ws.push(w).drop_first(),
            size,
        ));
    } else {
        assert(ws.push(w)[0] == ws[0]);
        assert(ws.push(w).drop_first() =~= ws.drop_first().push(w));
        let st = chunk_step(done, cur, ws[0], size);
        lemma_chunk_words_snoc(st.0, st.1, ws.drop_first(), w, size);
        assert(chunk_words(done, cur, ws.push(w), size) == chunk_words(
            st.0,
            st.1,
            ws.drop_first().push(w),
            size,
        ));
        assert(chunk_words(done, cur, ws, size) == chunk_words(st.0, st.1, ws.drop_first(), size));
    }
}

proof fn lemma_chunk_lines_snoc(
    done: Seq<Seq<char>>,
    cur: Seq<char>,
    ls: Seq<Seq<char>>,
    l: Seq<char>,
    size: nat,
)
    ensures
        chunk_lines(done, cur, ls.push(l), size).0 == line_end_step(
            chunk_words(
                chunk_lines(done, cur, ls, size).0,
                chunk_lines(done, cur, ls, size).1,
                spec_words(l),
                size,
            ).0,
            chunk_words(
                chunk_lines(done, cur, ls, size).0,
                chunk_lines(done, cur, ls, size).1,
                spec_words(l),
                size,
            ).1,
            size,
        ).0,
        chunk_lines(done, cur, ls.push(l), size).1 == line_end_step(
            chunk_words(
                chunk_lines(done, cur, ls, size).0,
                chunk_lines(done, cur, ls, size).1,
                spec_words(l),
                size,
            ).0,
            chunk_words(
                chunk_lines(done, cur, ls, size).0,
                chunk_lines(done, cur, ls, size).1,
                spec_words(l),
                size,
            ).1,
            size,
        ).1,
    decreases ls.len(),
{
    if ls.len() == 0 {
        assert(ls.push(l)[0] == l);
        assert(ls.push(l).drop_first() =~= Seq::<Seq<char>>::empty());
        let st1 = chunk_words(done, cur, spec_words(l), size);
        let st2 = line_end_step(st1.0, st1.1, size);
        assert(chunk_lines(done, cur, ls.push(l), size) == chunk_lines(
            st2.0,
            st2.1,
            ls.push(l).drop_first(),
            size,
        ));
    } else {
        assert(ls.push(l)[0] == ls[0]);
        assert(ls.push(l).drop_first() =~= ls.drop_first().push(l));
        let st = chunk_words(done, cur, spec_words(ls[0]), size);
        let st2 = line_end_step(st.0, st.1, size);
        lemma_chunk_lines_snoc(st2.0, st2.1, ls.drop_first(), l, size);
        assert(chunk_lines(done, cur, ls.push(l), size) == chunk_lines(
            st2.0,
            st2.1,
            ls.drop_first().push(l),
            size,
        ));
        assert(chunk_lines(done, cur, ls, size) == chunk_lines(st2.0, st2.1, ls.drop_first(), size));
    }
}

/// Splits a character vector into its lines.
fn split_lines(s: &Vec<char>) -> (r: Vec<Vec<char>>)
    ensures
        r.deep_view() == spec_lines(s@),
{
    let n = s.len();
    let mut done: Vec<Vec<char>> = Vec::new();
    let mut cur: Vec<char> = Vec::new();
    let mut open = false;
    let mut i: usize = 0;
    while i < n
        invariant
            n == s@.len(),
            i <= n,
            open == (i > 0 && s@[i as int - 1] != '\n'),
            !open ==> cur@.len() == 0,
            open ==> spec_lines(s@.take(i as int)) == done.deep_view().push(cur@),
            !open ==> spec_lines(s@.take(i as int)) == done.deep_view(),
        decreases n - i,
    {
        let ghost dv = done.deep_view();
        let ghost cv = cur@;
        proof {
            let t = s@.take(i as int + 1);
            assert(t.drop_last() =~= s@.take(i as int));
            assert(t.last() == s@[i as int]);
        }
        let c = s[i];
        if c == '\n' {
            if open {
                done.push(cur);
                cur = Vec::new();
                open = false;
                assert(done.deep_view() =~~= dv.push(cv));
            } else {
                done.push(Vec::new());
                assert(done.deep_view() =~~= dv.push(Seq::<char>::empty()));
            }
        } else {
            if open {
                cur.push(c);
                assert((dv.push(cv)).update(dv.len() as int, cv.push(c)) =~= dv.push(cv.push(c)));
            } else {
                cur.push(c);
                open = true;
                assert(cur@ =~= seq![c]);
            }
        }
        i = i + 1;
    }
    proof {
        assert(s@.take(n as int) =~= s@);
    }
    if open {
        let ghost dv = done.deep_view();
        done.push(cur);
        assert(done.deep_view() =~~= dv.push(cur@));
    }
    done
}

/// Splits a line into its whitespace-separated words.
fn split_words(s: &Vec<char>) -> (r: Vec<Vec<char>>)
    ensures
        r.deep_view() == spec_words(s@),
{
    let n = s.len();
    let mut done: Vec<Vec<char>> = Vec::new();
    let mut cur: Vec<char> = Vec::new();
    let mut open = false;
    let mut i: usize = 0;
    while i < n
        invariant
            n == s@.len(),
            i <= n,
            open == (i > 0 && !is_wspace(s@[i as int - 1])),
            !open ==> cur@.len() == 0,
            open ==> spec_words(s@.take(i as int)) == done.deep_view().push(cur@),
            !open ==> spec_words(s@.take(i as int)) == done.deep_view(),
        decreases n - i,
    {
        let ghost dv = done.deep_view();
        let ghost cv = cur@;
        proof {
            let t = s@.take(i as int + 1);
            assert(t.drop_last() =~= s@.take(i as int));
            assert(t.last() == s@[i as int]);
        }
        let c = s[i];
        if crate::text::is_space_char(c) {
            if open {
                done.push(cur);
                cur = Vec::new();
                open = false;
                assert(done.deep_view() =~~= dv.push(cv));
            }
        } else {
            if open {
                cur.push(c);
                assert((dv.push(cv)).update(dv.len() as int, cv.push(c)) =~= dv.push(cv.push(c)));
            } else {
                cur.push(c);
                open = true;
                assert(cur@ =~= seq![c]);
            }
        }
        i = i + 1;
    }
    proof {
        assert(s@.take(n as int) =~= s@);
    }
    if open {
        let ghost dv = done.deep_view();
        done.push(cur);
        assert(done.deep_view() =~~= dv.push(cur@));
    }
    done
}

/// Splits a text into chunks of at most `chunk_size` characters, breaking on
/// word and line boundaries. Words are joined with single spaces, each
/// source line's end appends a newline to the pending chunk, a chunk that
/// reaches exactly the limit closes at once, and a single word longer than
/// the limit stands alone in its own chunk rather than being split. No chunk
/// comes out empty.
pub fn chunk_string(s: &str, chunk_size: usize) -> (r: Vec<String>)
    ensures
        r.deep_view() == spec_chunks(s@, chunk_size as nat),
        chunks_ok(r.deep_view(), chunk_size as nat),
{
    let ghost size = chunk_size as nat;
    let cs = chars_vec(s);
    let lines = split_lines(&cs);
    let ghost lsq = lines.deep_view();
    let mut done: Vec<String> = Vec::new();
    let mut cur: Vec<char> = Vec::new();
    let mut li: usize = 0;
    proof {
        assert(lsq.take(0) =~= Seq::<Seq<char>>::empty());
    }
    while li < lines.len()
        invariant
            size == chunk_size as nat,
            lsq == lines.deep_view(),
            lines@.len() == lsq.len(),
            li <= lsq.len(),
            done.deep_view() == chunk_lines(
                Seq::<Seq<char>>::empty(),
                Seq::<char>::empty(),
                lsq.take(li as int),
                size,
            ).0,
            cur@ == chunk_lines(
                Seq::<Seq<char>>::empty(),
                Seq::<char>::empty(),
                lsq.take(li as int),
                size,
            ).1,
            chunks_ok(done.deep_view(), size),
            open_ok(cur@, size),
        decreases lsq.len() - li,
    {
        let ghost st0 = (done.deep_view(), cur@);
        let words = split_words(&lines[li]);
        let ghost wsq = words.deep_view();
        proof {
            assert(lines[li as int]@ =~= lsq[li as int]);
            lemma_words_wf(lsq[li as int]);
            assert(wsq.take(0) =~= Seq::<Seq<char>>::empty());
        }
        let mut wi: usize = 0;
        while wi < words.len()
            invariant
                size == chunk_size as nat,
                wsq == words.deep_view(),
                words@.len() == wsq.len(),
                wi <= wsq.len(),
                forall|k: int| 0 <= k < wsq.len() ==> word_ok(#[trigger] wsq[k]),
                done.deep_view() == chunk_words(st0.0, st0.1, wsq.take(wi as int), size).0,
                cur@ == chunk_words(st0.0, st0.1, wsq.take(wi as int), size).1,
                chunks_ok(done.deep_view(), size),
                open_ok(cur@, size),
            decreases wsq.len() - wi,
        {
            let ghost dv = done.deep_view();
            let ghost cv = cur@;
            let ghost w = wsq[wi as int];
            proof {
                assert(words[wi as int]@ =~= w);
                assert(word_ok(w));
                assert(forall|j: int| 0 <= j < w.len() ==> w[j] != ' ');
                assert(forall|j: int| 0 <= j < w.len() ==> w[j] != '\n');
            }
            let wl = words[wi].len();
            let cl = cur.len();
            let sep_needed = cl > 0 && cur[cl - 1] != '\n';
            let sep: usize = if sep_needed {
                1
            } else {
                0
            };
            let over = if cl > chunk_size {
                true
            } else if sep > chunk_size - cl {
                true
            } else {
                wl > chunk_size - cl - sep
            };
            assert(over == (cv.len() + (if cv.len() > 0 && cv.last() != '\n' {
                1nat
            } else {
                0nat
            }) + w.len() > size));
            if over {
                if cl > 0 {
                    let closed = string_from_chars(&cur);
                    done.push(closed);
                    cur = Vec::new();
                    assert(done.deep_view() =~~= dv.push(cv));
                }
                if wl == chunk_size {
                    let ghost dv2 = done.deep_view();
                    let word_chunk = string_from_chars(&words[wi]);
                    done.push(word_chunk);
                    assert(done.deep_view() =~~= dv2.push(w));
                } else {
                    cur = copy_chars(&words[wi]);
                }
            } else {
                if sep_needed {
                    cur.push(' ');
                }
                append_chars(&mut cur, &words[wi]);
                proof {
                    if sep_needed {
                        assert(cur@ =~= cv.push(' ') + w);
                    } else {
                        assert(cur@ =~= cv + w);
                    }
                }
                if cur.len() == chunk_size {
                    let ghost full = cur@;
                    let closed = string_from_chars(&cur);
                    done.push(closed);
                    cur = Vec::new();
                    assert(done.deep_view() =~~= dv.push(full));
                }
            }
            wi = wi + 1;
            proof {
                lemma_chunk_words_snoc(st0.0, st0.1, wsq.take(wi - 1), w, size);
                assert(wsq.take(wi as int) =~= wsq.take(wi - 1).push(w));
            }
        }
        proof {
            assert(wsq.take(wsq.len() as int) =~= wsq);
        }
        let ghost st1 = (done.deep_view(), cur@);
        if cur.len() > 0 {
            let ghost cv = cur@;
            cur.push('\n');
            if cur.len() == chunk_size {
                let ghost dv = done.deep_view();
                let ghost full = cur@;
                let closed = string_from_chars(&cur);
                done.push(closed);
                cur = Vec::new();
                assert(done.deep_view() =~~= dv.push(full));
            }
        }
        li = li + 1;
        proof {
            lemma_chunk_lines_snoc(
                Seq::<Seq<char>>::empty(),
                Seq::<char>::empty(),
                lsq.take(li - 1),
                lsq[li - 1],
                size,
            );
            assert(lsq.take(li as int) =~= lsq.take(li - 1).push(lsq[li - 1]));
        }
    }
    proof {
        assert(lsq.take(lsq.len() as int) =~= lsq);
        assert(cs@ == s@);
    }
    if cur.len() > 0 {
        let ghost dv = done.deep_view();
        let ghost cv = cur@;
        let closed = string_from_chars(&cur);
        done.push(closed);
        assert(done.deep_view() =~~= dv.push(cv));
    }
    done
}


/// The chunks joined back into one text, with a single space between
/// consecutive chunks.
pub open spec fn join_spaces(ss: Seq<Seq<char>>) -> Seq<char>
    decreases ss.len(),
{
    if ss.len() == 0 {
        Seq::empty()
    } else if ss.len() == 1 {
        ss[0]
    } else {
        ss[0] + seq![' '] + join_spaces(ss.drop_first())
    }
}

/// The words of each piece, in order.
pub open spec fn all_words(ss: Seq<Seq<char>>) -> Seq<Seq<char>>
    decreases ss.len(),
{
    if ss.len() == 0 {
        Seq::empty()
    } else {
        spec_words(ss[0]) + all_words(ss.drop_first())
    }
}

proof fn lemma_all_words_snoc(ss: Seq<Seq<char>>, x: Seq<char>)
    ensures
        all_words(ss.push(x)) == all_words(ss) + spec_words(x),
    decreases ss.len(),
{
    if ss.len() == 0 {
        assert(ss.push(x)[0] == x);
        assert(ss.push(x).drop_first() =~= Seq::<Seq<char>>::empty());
        assert(spec_words(x) + all_words(Seq::<Seq<char>>::empty()) =~= spec_words(x));
        assert(all_words(ss) + spec_words(x) =~= spec_words(x));
    } else {
        assert(ss.push(x)[0] == ss[0]);
        assert(ss.push(x).drop_first() =~= ss.drop_first().push(x));
        lemma_all_words_snoc(ss.drop_first(), x);
        assert(spec_words(ss[0]) + (all_words(ss.drop_first()) + spec_words(x)) =~= (spec_words(
            ss[0],
        ) + all_words(ss.drop_first())) + spec_words(x));
    }
}

proof fn lemma_words_one(c: char)
    ensures
        spec_words(seq![c]) == if is_wspace(c) {
            Seq::<Seq<char>>::empty()
        } else {
            seq![seq![c]]
        },
{
    let s = seq![c];
    assert(s.len() == 1);
    assert(s.drop_last() =~= Seq::<char>::empty());
    assert(s.last() == c);
    assert(spec_words(s.drop_last()).len() == 0);
    if is_wspace(c) {
        assert(spec_words(s) =~= Seq::<Seq<char>>::empty());
    } else {
        assert(spec_words(s) =~= seq![seq![c]]);
    }
}

proof fn lemma_words_empty()
    ensures
        spec_words(Seq::<char>::empty()).len() == 0,
{
}

proof fn lemma_words_push_ws(s: Seq<char>, c: char)
    requires
        is_wspace(c),
    ensures
        spec_words(s.push(c)) == spec_words(s),
{
    assert(s.push(c).drop_last() =~= s);
    assert(s.push(c).last() == c);
}

proof fn lemma_words_single(w: Seq<char>)
    requires
        word_ok(w),
    ensures
        spec_words(w) == seq![w],
    decreases w.len(),
{
    let p = w.drop_last();
    let c = w.last();
    assert(!is_wspace(c));
    if p.len() == 0 {
        assert(seq![c] =~= w);
        lemma_words_one(c);
        assert(seq![seq![c]] =~= seq![w]);
    } else {
        assert(word_ok(p)) by {
            assert(forall|j: int| 0 <= j < p.len() ==> p[j] == w[j]);
        }
        assert(!is_wspace(p.last()));
        lemma_words_single(p);
        assert(p.push(c) =~= w);
        assert(spec_words(w) == seq![p].update(0, seq![p][0].push(c)));
        assert(seq![p].update(0, seq![p][0].push(c)) =~= seq![w]);
    }
}

proof fn lemma_words_append(a: Seq<char>, b: Seq<char>)
    requires
        a.len() == 0 || b.len() == 0 || is_wspace(a.last()) || is_wspace(b[0]),
    ensures
        spec_words(a + b) == spec_words(a) + spec_words(b),
    decreases b.len(),
{
    if b.len() == 0 {
        assert(a + b =~= a);
        assert(spec_words(a) + spec_words(b) =~= spec_words(a));
    } else {
        let b2 = b.drop_last();
        let c = b.last();
        let ab = a + b;
        assert(ab.len() > 0);
        assert(ab.drop_last() =~= a + b2);
        assert(ab.last() == c);
        lemma_words_append(a, b2);
        if is_wspace(c) {
            assert(spec_words(b) == spec_words(b2));
            assert(spec_words(ab) == spec_words(a + b2));
        } else if (a + b2).len() == 0 || is_wspace((a + b2).last()) {
            assert(spec_words(ab) == spec_words(a + b2).push(seq![c]));
            if b2.len() > 0 {
                assert((a + b2).last() == b2.last());
                assert(spec_words(b) == spec_words(b2).push(seq![c]));
            } else {
                assert(b =~= seq![c]);
                assert(spec_words(b) =~= Seq::<Seq<char>>::empty().push(seq![c]));
                assert(spec_words(b2).push(seq![c]) =~= spec_words(b));
            }
            assert((spec_words(a) + spec_words(b2)).push(seq![c]) =~= spec_words(a) + spec_words(
                b2,
            ).push(seq![c]));
        } else {
            assert(b2.len() > 0) by {
                if b2.len() == 0 {
                    assert((a + b2) =~= a);
                    assert(b[0] == c);
                }
            }
            assert((a + b2).last() == b2.last());
            assert(!is_wspace(b2.last()));
            lemma_words_last_open(b2);
            let wa = spec_words(a);
            let wb2 = spec_words(b2);
            let wab2 = spec_words(a + b2);
            assert(wab2 == wa + wb2);
            assert(wb2.len() > 0);
            assert(wab2.last() == wb2.last());
            assert(spec_words(ab) == wab2.update(wab2.len() - 1, wab2.last().push(c)));
            assert(spec_words(b) == wb2.update(wb2.len() - 1, wb2.last().push(c)));
            assert((wa + wb2).update(wa.len() + wb2.len() - 1, wb2.last().push(c)) =~= wa
                + wb2.update(wb2.len() - 1, wb2.last().push(c)));
        }
    }
}

proof fn lemma_join_words(ss: Seq<Seq<char>>)
    ensures
        spec_words(join_spaces(ss)) == all_words(ss),
    decreases ss.len(),
{
    if ss.len() == 0 {
    } else if ss.len() == 1 {
        assert(ss.drop_first() =~= Seq::<Seq<char>>::empty());
        assert(spec_words(ss[0]) + all_words(ss.drop_first()) =~= spec_words(ss[0]));
    } else {
        lemma_join_words(ss.drop_first());
        let rest = join_spaces(ss.drop_first());
        let b = seq![' '] + rest;
        assert(b.len() > 0);
        assert(b[0] == ' ');
        lemma_words_append(ss[0], b);
        assert(seq![' '].last() == ' ');
        lemma_words_append(seq![' '], rest);
        lemma_words_one(' ');
        assert(join_spaces(ss) =~= ss[0] + b);
        assert(spec_words(seq![' ']) + spec_words(rest) =~= spec_words(rest));
        assert(spec_words(ss[0]) + spec_words(rest) == all_words(ss));
    }
}

proof fn lemma_lines_nonempty(s: Seq<char>)
    requires
        s.len() > 0,
    ensures
        spec_lines(s).len() > 0,
    decreases s.len(),
{
    let p = s.drop_last();
    if p.len() == 0 {
    } else {
        lemma_lines_nonempty(p);
    }
}

proof fn lemma_lines_last(s: Seq<char>)
    requires
        s.len() > 0,
        s.last() != '\n',
    ensures
        spec_lines(s).len() > 0,
        spec_lines(s).last().len() > 0,
        spec_lines(s).last().last() == s.last(),
    decreases s.len(),
{
    let p = s.drop_last();
    let c = s.last();
    if p.len() == 0 || p.last() == '\n' {
    } else {
        lemma_lines_nonempty(p);
        lemma_lines_last(p);
    }
}

proof fn lemma_words_by_lines(s: Seq<char>)
    ensures
        all_words(spec_lines(s)) == spec_words(s),
    decreases s.len(),
{
    if s.len() == 0 {
    } else {
        let p = s.drop_last();
        let c = s.last();
        lemma_words_by_lines(p);
        let l = spec_lines(p);
        if c == '\n' {
            if p.len() == 0 || p.last() == '\n' {
                lemma_all_words_snoc(l, Seq::empty());
                lemma_words_empty();
                assert(all_words(l) + spec_words(Seq::<char>::empty()) =~= all_words(l));
            } else {
            }
        } else if p.len() == 0 || p.last() == '\n' {
            lemma_all_words_snoc(l, seq![c]);
            lemma_words_one(c);
            if is_wspace(c) {
                assert(all_words(l) + spec_words(seq![c]) =~= all_words(l));
                assert(spec_words(s) == spec_words(p));
            } else {
                assert(spec_words(s) == spec_words(p).push(seq![c]));
                assert(all_words(l) + spec_words(seq![c]) =~= all_words(l).push(seq![c]));
            }
        } else {
            lemma_lines_last(p);
            let n = l.len();
            let ll = l.last();
            assert(ll.last() == p.last());
            let lt = l.take(n - 1);
            assert(l =~= lt.push(ll));
            lemma_all_words_snoc(lt, ll);
            assert(spec_lines(s) == l.update(n - 1, ll.push(c)));
            assert(l.update(n - 1, ll.push(c)) =~= lt.push(ll.push(c)));
            lemma_all_words_snoc(lt, ll.push(c));
            // spec_words(p) == all_words(lt) + spec_words(ll)
            if is_wspace(c) {
                lemma_words_push_ws(ll, c);
                assert(spec_words(s) == spec_words(p));
            } else if is_wspace(p.last()) {
                assert(spec_words(s) == spec_words(p).push(seq![c]));
                assert(ll.push(c).drop_last() =~= ll);
                assert(ll.push(c).last() == c);
                assert(is_wspace(ll.last()));
                assert(spec_words(ll.push(c)) == spec_words(ll).push(seq![c]));
                assert((all_words(lt) + spec_words(ll)).push(seq![c]) =~= all_words(lt)
                    + spec_words(ll).push(seq![c]));
            } else {
                lemma_words_last_open(p);
                lemma_words_last_open(ll);
                let wp = spec_words(p);
                let wll = spec_words(ll);
                assert(wp == all_words(lt) + wll);
                assert(wp.last() == wll.last());
                assert(spec_words(s) == wp.update(wp.len() - 1, wp.last().push(c)));
                assert(ll.push(c).drop_last() =~= ll);
                assert(ll.push(c).last() == c);
                assert(spec_words(ll.push(c)) == wll.update(wll.len() - 1, wll.last().push(c)));
                assert((all_words(lt) + wll).update(all_words(lt).len() + wll.len() - 1, wll.last(
                ).push(c)) =~= all_words(lt) + wll.update(wll.len() - 1, wll.last().push(c)));
            }
        }
    }
}

proof fn lemma_chunk_step_words(done: Seq<Seq<char>>, cur: Seq<char>, w: Seq<char>, size: nat)
    requires
        word_ok(w),
    ensures
        all_words(chunk_step(done, cur, w, size).0) + spec_words(chunk_step(done, cur, w, size).1)
            == all_words(done) + spec_words(cur) + seq![w],
{
    lemma_words_single(w);
    lemma_words_empty();
    let sep: nat = if cur.len() > 0 && cur.last() != '\n' {
        1
    } else {
        0
    };
    if cur.len() + sep + w.len() > size {
        let done2 = if cur.len() > 0 {
            done.push(cur)
        } else {
            done
        };
        if cur.len() > 0 {
            lemma_all_words_snoc(done, cur);
        } else {
            assert(spec_words(cur).len() == 0);
            assert(all_words(done2) =~= all_words(done) + spec_words(cur));
        }
        if w.len() == size {
            lemma_all_words_snoc(done2, w);
            assert((all_words(done) + spec_words(cur)) + seq![w] =~= all_words(done) + spec_words(
                cur,
            ) + seq![w]);
            assert(all_words(done2.push(w)) + spec_words(Seq::<char>::empty()) =~= all_words(
                done2.push(w),
            ));
        } else {
            assert(all_words(done2) + spec_words(w) =~= all_words(done) + spec_words(cur) + seq![
                w,
            ]);
        }
    } else {
        let cur2 = if sep == 1 {
            cur.push(' ') + w
        } else {
            cur + w
        };
        assert(spec_words(cur2) == spec_words(cur) + seq![w]) by {
            if sep == 1 {
                let b = seq![' '] + w;
                assert(b[0] == ' ');
                lemma_words_append(cur, b);
                lemma_words_append(seq![' '], w);
                lemma_words_one(' ');
                assert(cur.push(' ') + w =~= cur + b);
                assert(spec_words(seq![' ']) + spec_words(w) =~= spec_words(w));
            } else {
                lemma_words_append(cur, w);
            }
        }
        if cur2.len() == size {
            lemma_all_words_snoc(done, cur2);
            assert(all_words(done.push(cur2)) + spec_words(Seq::<char>::empty()) =~= all_words(
                done,
            ) + spec_words(cur) + seq![w]);
        } else {
            assert(all_words(done) + spec_words(cur2) =~= all_words(done) + spec_words(cur)
                + seq![w]);
        }
    }
}

proof fn lemma_line_end_words(done: Seq<Seq<char>>, cur: Seq<char>, size: nat)
    ensures
        all_words(line_end_step(done, cur, size).0) + spec_words(line_end_step(done, cur, size).1)
            == all_words(done) + spec_words(cur),
{
    lemma_words_empty();
    if cur.len() == 0 {
    } else {
        let cur2 = cur.push('\n');
        lemma_words_push_ws(cur, '\n');
        if cur2.len() == size {
            lemma_all_words_snoc(done, cur2);
            assert(all_words(done.push(cur2)) + spec_words(Seq::<char>::empty()) =~= all_words(
                done,
            ) + spec_words(cur));
        }
    }
}

proof fn lemma_chunk_words_preserves(
    done: Seq<Seq<char>>,
    cur: Seq<char>,
    ws: Seq<Seq<char>>,
    size: nat,
)
    requires
        forall|k: int| 0 <= k < ws.len() ==> word_ok(#[trigger] ws[k]),
    ensures
        all_words(chunk_words(done, cur, ws, size).0) + spec_words(
            chunk_words(done, cur, ws, size).1,
        ) == all_words(done) + spec_words(cur) + ws,
    decreases ws.len(),
{
    if ws.len() == 0 {
        assert(all_words(done) + spec_words(cur) + ws =~= all_words(done) + spec_words(cur));
    } else {
        let st = chunk_step(done, cur, ws[0], size);
        lemma_chunk_step_words(done, cur, ws[0], size);
        assert(forall|k: int|
            0 <= k < ws.drop_first().len() ==> word_ok(#[trigger] ws.drop_first()[k]));
        lemma_chunk_words_preserves(st.0, st.1, ws.drop_first(), size);
        assert(all_words(done) + spec_words(cur) + seq![ws[0]] + ws.drop_first() =~= all_words(
            done,
        ) + spec_words(cur) + ws);
    }
}

proof fn lemma_chunk_lines_preserves(
    done: Seq<Seq<char>>,
    cur: Seq<char>,
    ls: Seq<Seq<char>>,
    size: nat,
)
    ensures
        all_words(chunk_lines(done, cur, ls, size).0) + spec_words(
            chunk_lines(done, cur, ls, size).1,
        ) == all_words(done) + spec_words(cur) + all_words(ls),
    decreases ls.len(),
{
    if ls.len() == 0 {
        assert(all_words(done) + spec_words(cur) + all_words(ls) =~= all_words(done) + spec_words(
            cur,
        ));
    } else {
        lemma_words_wf(ls[0]);
        let st = chunk_words(done, cur, spec_words(ls[0]), size);
        lemma_chunk_words_preserves(done, cur, spec_words(ls[0]), size);
        let st2 = line_end_step(st.0, st.1, size);
        lemma_line_end_words(st.0, st.1, size);
        lemma_chunk_lines_preserves(st2.0, st2.1, ls.drop_first(), size);
        assert(all_words(done) + spec_words(cur) + spec_words(ls[0]) + all_words(ls.drop_first())
            =~= all_words(done) + spec_words(cur) + all_words(ls));
    }
}

/// Splitting loses no words and invents none: join the chunks with single
/// spaces, split the result on whitespace, and exactly the words of the
/// original text come back, in order.
pub proof fn lemma_chunks_preserve_words(s: Seq<char>, size: nat)
    ensures
        spec_words(join_spaces(spec_chunks(s, size))) == spec_words(s),
{
    let st = chunk_lines(Seq::<Seq<char>>::empty(), Seq::<char>::empty(), spec_lines(s), size);
    lemma_chunk_lines_preserves(Seq::empty(), Seq::empty(), spec_lines(s), size);
    lemma_words_by_lines(s);
    lemma_words_empty();
    assert(all_words(Seq::<Seq<char>>::empty()) + spec_words(Seq::<char>::empty()) + all_words(
        spec_lines(s),
    ) =~= all_words(spec_lines(s)));
    let chunks = spec_chunks(s, size);
    lemma_join_words(chunks);
    if st.1.len() == 0 {
        assert(st.1 =~= Seq::<char>::empty());
        assert(all_words(st.0) + spec_words(st.1) =~= all_words(st.0));
    } else {
        lemma_all_words_snoc(st.0, st.1);
    }
}

} // verus!
