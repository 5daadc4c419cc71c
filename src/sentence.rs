//! Splitting text into whitespace-separated words, and joining words with
//! single spaces.
use vstd::prelude::*;

verus! {

/// The characters with the Unicode `White_Space` property, which is what
/// `char::is_whitespace` tests.
pub open spec fn is_space(c: char) -> bool {
    let u = c as u32;
    (9 <= u && u <= 13) || u == 32 || u == 0x85 || u == 0xA0 || u == 0x1680 || (0x2000 <= u && u
        <= 0x200A) || u == 0x2028 || u == 0x2029 || u == 0x202F || u == 0x205F || u == 0x3000
}

/// Whether `c` is a whitespace character.
pub fn is_space_char(c: char) -> (r: bool)
    ensures
        r == is_space(c),
{
    let u = c as u32;
    (9 <= u && u <= 13) || u == 32 || u == 0x85 || u == 0xA0 || u == 0x1680 || (0x2000 <= u && u
        <= 0x200A) || u == 0x2028 || u == 0x2029 || u == 0x202F || u == 0x205F || u == 0x3000
}

/// A word that can stand in a sentence: not empty, and free of whitespace.
pub open spec fn is_plain_word(w: Seq<char>) -> bool {
    w.len() > 0 && forall|i: int| 0 <= i < w.len() ==> !is_space(#[trigger] w[i])
}

/// Reading `s` left to right: the words completed so far, and the word being read.
pub open spec fn scan(s: Seq<char>) -> (Seq<Seq<char>>, Seq<char>)
    decreases s.len(),
{
    if s.len() == 0 {
        (seq![], seq![])
    } else {
        let (done, cur) = scan(s.drop_last());
        if is_space(s.last()) {
            (
                if cur.len() > 0 {
                    done.push(cur)
                } else {
                    done
                },
                seq![],
            )
        } else {
            (done, cur.push(s.last()))
        }
    }
}

/// The maximal runs of non-whitespace characters of `s`, in order.
pub open spec fn words_of(s: Seq<char>) -> Seq<Seq<char>> {
    let (done, cur) = scan(s);
    if cur.len() > 0 {
        done.push(cur)
    } else {
        done
    }
}

/// The words of `ws` joined by single spaces.
pub open spec fn join_words(ws: Seq<Seq<char>>) -> Seq<char>
    decreases ws.len(),
{
    if ws.len() == 0 {
        seq![]
    } else if ws.len() == 1 {
        ws[0]
    } else {
        join_words(ws.drop_last()) + seq![' '] + ws.last()
    }
}

/// The character sequences of a list of strings.
pub open spec fn views(v: Seq<String>) -> Seq<Seq<char>> {
    v.map_values(|w: String| w@)
}

/// Relies on `String::push`: appends one character.
#[verifier::external_body]
pub(crate) fn push_char(s: &mut String, c: char)
    ensures
        final(s)@ == old(s)@.push(c),
{
    s.push(c);
}

/// The whitespace-separated words of `text`.
pub fn split_words(text: &str) -> (r: Vec<String>)
    ensures
        views(r@) == words_of(text@),
{
    let mut done: Vec<String> = Vec::new();
    let mut cur = String::new();
    for c in it: text.chars()
        invariant
            it.seq() == text@,
            views(done@) == scan(text@.take(it.index() as int)).0,
            cur@ == scan(text@.take(it.index() as int)).1,
    {
        proof {
            let k = it.index() as int;
            assert(text@.take(k + 1).drop_last() =~= text@.take(k));
            assert(text@.take(k + 1).last() == c);
        }
        if is_space_char(c) {
            if !cur.as_str().is_empty() {
                let ghost prev = done@;
                let ghost word = cur@;
                done.push(cur);
                cur = String::new();
                proof {
                    assert(views(done@) =~= views(prev).push(word));
                }
            }
        } else {
            push_char(&mut cur, c);
        }
    }
    proof {
        assert(text@.take(text@.len() as int) =~= text@);
    }
    if !cur.as_str().is_empty() {
        let ghost prev = done@;
        let ghost word = cur@;
        done.push(cur);
        proof {
            assert(views(done@) =~= views(prev).push(word));
        }
    }
    done
}

/// The strings of `words` joined by single spaces.
pub fn join_with_spaces(words: &Vec<String>) -> (r: String)
    ensures
        r@ == join_words(views(words@)),
{
    let mut out = String::new();
    let mut i: usize = 0;
    while i < words.len()
        invariant
            i <= words.len(),
            out@ == join_words(views(words@).take(i as int)),
        decreases words.len() - i,
    {
        let ghost ws = views(words@).take(i as int + 1);
        proof {
            assert(ws.drop_last() =~= views(words@).take(i as int));
        }
        if i > 0 {
            proof {
                reveal_strlit(" ");
            }
            out.append(" ");
        }
        out.append(words[i].as_str());
        proof {
            if i == 0 {
                assert(out@ =~= ws[0]);
            } else {
                assert(out@ =~= join_words(ws.drop_last()) + seq![' '] + ws.last());
            }
        }
        i = i + 1;
    }
    proof {
        assert(views(words@).take(words.len() as int) =~= views(words@));
    }
    out
}

/// Reading a run of non-whitespace characters extends the current word.
proof fn lemma_scan_plain(p: Seq<char>, w: Seq<char>)
    requires
        forall|i: int| 0 <= i < w.len() ==> !is_space(#[trigger] w[i]),
    ensures
        scan(p + w) == (scan(p).0, scan(p).1 + w),
    decreases w.len(),
{
    if w.len() == 0 {
        assert(p + w =~= p);
        assert(scan(p).1 + w =~= scan(p).1);
    } else {
        let w0 = w.drop_last();
        lemma_scan_plain(p, w0);
        assert((p + w).drop_last() =~= p + w0);
        assert((p + w).last() == w.last());
        assert(scan(p).1 + w0 + seq![w.last()] =~= scan(p).1 + w);
        assert((scan(p).1 + w0).push(w.last()) =~= scan(p).1 + w);
    }
}

/// Reading whole words joined by single spaces ends with every word but the
/// last completed and the last one being read.
proof fn lemma_scan_join(ws: Seq<Seq<char>>)
    requires
        ws.len() > 0,
        forall|i: int| 0 <= i < ws.len() ==> is_plain_word(#[trigger] ws[i]),
    ensures
        scan(join_words(ws)) == (ws.drop_last(), ws.last()),
    decreases ws.len(),
{
    if ws.len() == 1 {
        lemma_scan_plain(seq![], ws[0]);
        assert(seq![] + ws[0] =~= ws[0]);
        assert(ws.drop_last() =~= seq![]);
        assert(seq![] + ws[0] =~= ws[0]);
    } else {
        let prev = ws.drop_last();
        lemma_scan_join(prev);
        let head = join_words(prev) + seq![' '];
        assert(head.drop_last() =~= join_words(prev));
        assert(is_space(head.last()));
        assert(prev.last() == ws[ws.len() - 2]);
        assert(prev.drop_last().push(prev.last()) =~= prev);
        lemma_scan_plain(head, ws.last());
        assert(seq![] + ws.last() =~= ws.last());
    }
}

/// Splitting words that were joined by single spaces gives back the words.
pub proof fn lemma_words_of_join(ws: Seq<Seq<char>>)
    requires
        ws.len() > 0,
        forall|i: int| 0 <= i < ws.len() ==> is_plain_word(#[trigger] ws[i]),
    ensures
        words_of(join_words(ws)) == ws,
{
    lemma_scan_join(ws);
    assert(ws.last().len() > 0);
    assert(ws.drop_last().push(ws.last()) =~= ws);
}

/// `w` without its leading whitespace.
pub open spec fn trim_start(w: Seq<char>) -> Seq<char>
    decreases w.len(),
{
    if w.len() > 0 && is_space(w[0]) {
        trim_start(w.drop_first())
    } else {
        w
    }
}

/// `w` without its trailing whitespace.
pub open spec fn trim_end(w: Seq<char>) -> Seq<char>
    decreases w.len(),
{
    if w.len() > 0 && is_space(w.last()) {
        trim_end(w.drop_last())
    } else {
        w
    }
}

/// `w` without leading and trailing whitespace.
pub open spec fn trim(w: Seq<char>) -> Seq<char> {
    trim_end(trim_start(w))
}

/// Reading `s` left to right, line by line: the non-blank lines completed so
/// far (trimmed), and the line being read.
pub open spec fn scan_lines(s: Seq<char>) -> (Seq<Seq<char>>, Seq<char>)
    decreases s.len(),
{
    if s.len() == 0 {
        (seq![], seq![])
    } else {
        let (done, cur) = scan_lines(s.drop_last());
        if s.last() == '\n' {
            (
                if trim(cur).len() > 0 {
                    done.push(trim(cur))
                } else {
                    done
                },
                seq![],
            )
        } else {
            (done, cur.push(s.last()))
        }
    }
}

/// The lines of `s` that are not blank, trimmed, in order.
pub open spec fn nonblank_lines(s: Seq<char>) -> Seq<Seq<char>> {
    let (done, cur) = scan_lines(s);
    if trim(cur).len() > 0 {
        done.push(trim(cur))
    } else {
        done
    }
}

/// The characters of `s`.
pub(crate) fn chars_of(s: &str) -> (r: Vec<char>)
    ensures
        r@ == s@,
{
    let mut r: Vec<char> = Vec::new();
    for c in it: s.chars()
        invariant
            it.seq() == s@,
            r@ == s@.take(it.index() as int),
    {
        r.push(c);
        proof {
            assert(r@ =~= s@.take(it.index() + 1));
        }
    }
    proof {
        assert(s@.take(s@.len() as int) =~= s@);
    }
    r
}

proof fn lemma_trim_start_skip(w: Seq<char>, i: int)
    requires
        0 <= i <= w.len(),
        forall|k: int| 0 <= k < i ==> is_space(#[trigger] w[k]),
    ensures
        trim_start(w) == trim_start(w.skip(i)),
    decreases i,
{
    if i > 0 {
        assert(w.skip(1) =~= w.drop_first());
        lemma_trim_start_skip(w.drop_first(), i - 1);
        assert(w.drop_first().skip(i - 1) =~= w.skip(i));
    } else {
        assert(w.skip(0) =~= w);
    }
}

proof fn lemma_trim_end_take(w: Seq<char>, j: int)
    requires
        0 <= j <= w.len(),
        forall|k: int| j <= k < w.len() ==> is_space(#[trigger] w[k]),
    ensures
        trim_end(w) == trim_end(w.take(j)),
    decreases w.len() - j,
{
    if j < w.len() {
        assert(w.take(w.len() - 1) =~= w.drop_last());
        lemma_trim_end_take(w.drop_last(), j);
        assert(w.drop_last().take(j) =~= w.take(j));
    } else {
        assert(w.take(j) =~= w);
    }
}

/// `s` without leading and trailing whitespace.
pub fn trim_string(s: &String) -> (r: String)
    ensures
        r@ == trim(s@),
{
    let cs = chars_of(s.as_str());
    let n = cs.len();
    let mut i: usize = 0;
    while i < n && is_space_char(cs[i])
        invariant
            i <= n,
            n == cs@.len(),
            cs@ == s@,
            forall|k: int| 0 <= k < i ==> is_space(#[trigger] cs@[k]),
        decreases n - i,
    {
        i = i + 1;
    }
    proof {
        lemma_trim_start_skip(s@, i as int);
    }
    let ghost rest = s@.skip(i as int);
    let mut j: usize = n;
    while j > i && is_space_char(cs[j - 1])
        invariant
            i <= j <= n,
            n == cs@.len(),
            cs@ == s@,
            rest == s@.skip(i as int),
            forall|k: int| j <= k < n ==> is_space(#[trigger] cs@[k]),
        decreases j - i,
    {
        j = j - 1;
    }
    proof {
        assert(i < j ==> !is_space(rest[0]));
        assert(trim_start(rest) == rest);
        assert forall|k: int| j - i <= k < rest.len() implies is_space(#[trigger] rest[k]) by {
            assert(rest[k] == cs@[k + i]);
        }
        lemma_trim_end_take(rest, j - i);
        assert(rest.take(j - i) =~= s@.subrange(i as int, j as int));
        let t = s@.subrange(i as int, j as int);
        if t.len() > 0 {
            assert(!is_space(t.last()));
        }
        assert(trim_end(t) == t);
    }
    let mut r = String::new();
    let mut k: usize = i;
    while k < j
        invariant
            i <= k <= j,
            j <= n,
            n == cs@.len(),
            cs@ == s@,
            r@ == s@.subrange(i as int, k as int),
        decreases j - k,
    {
        push_char(&mut r, cs[k]);
        proof {
            assert(r@ =~= s@.subrange(i as int, k + 1));
        }
        k = k + 1;
    }
    r
}

/// The lines of `text` that are not blank, trimmed, in order.
pub fn nonblank_lines_of(text: &str) -> (r: Vec<String>)
    ensures
        views(r@) == nonblank_lines(text@),
{
    let mut done: Vec<String> = Vec::new();
    let mut cur = String::new();
    for c in it: text.chars()
        invariant
            it.seq() == text@,
            views(done@) == scan_lines(text@.take(it.index() as int)).0,
            cur@ == scan_lines(text@.take(it.index() as int)).1,
    {
        proof {
            let k = it.index() as int;
            assert(text@.take(k + 1).drop_last() =~= text@.take(k));
            assert(text@.take(k + 1).last() == c);
        }
        if c == '\n' {
            let t = trim_string(&cur);
            if !t.as_str().is_empty() {
                let ghost prev = done@;
                done.push(t);
                proof {
                    assert(views(done@) =~= views(prev).push(t@));
                }
            }
            cur = String::new();
        } else {
            push_char(&mut cur, c);
        }
    }
    proof {
        assert(text@.take(text@.len() as int) =~= text@);
    }
    let t = trim_string(&cur);
    if !t.as_str().is_empty() {
        let ghost prev = done@;
        done.push(t);
        proof {
            assert(views(done@) =~= views(prev).push(t@));
        }
    }
    done
}

} // verus!
