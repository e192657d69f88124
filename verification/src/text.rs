use vstd::prelude::*;

verus! {

/// The characters that carry the Unicode `White_Space` property, which is what
/// `char::is_whitespace` (and therefore `str::split_whitespace` and `str::trim`) tests.
pub open spec fn is_white_space(c: char) -> bool {
    ||| ('\u{9}' <= c && c <= '\u{d}')
    ||| c == ' '
    ||| c == '\u{85}'
    ||| c == '\u{a0}'
    ||| c == '\u{1680}'
    ||| ('\u{2000}' <= c && c <= '\u{200a}')
    ||| c == '\u{2028}'
    ||| c == '\u{2029}'
    ||| c == '\u{202f}'
    ||| c == '\u{205f}'
    ||| c == '\u{3000}'
}

/// Executable test for [`is_white_space`].
pub fn char_is_white_space(c: char) -> (res: bool)
    ensures
        res == is_white_space(c),
{
    ('\u{9}' <= c && c <= '\u{d}') || c == ' ' || c == '\u{85}' || c == '\u{a0}' || c == '\u{1680}'
        || ('\u{2000}' <= c && c <= '\u{200a}') || c == '\u{2028}' || c == '\u{2029}' || c
        == '\u{202f}' || c == '\u{205f}' || c == '\u{3000}'
}

/// Appends one character to a string (`String::push`).
#[verifier::external_body]
pub(crate) fn push_char(s: &mut String, c: char)
    ensures
        final(s)@ == old(s)@.push(c),
{
    s.push(c);
}

/// The characters of a string slice, in order.
pub fn chars_of(s: &str) -> (res: Vec<char>)
    ensures
        res@ == s@,
{
    let mut res: Vec<char> = Vec::new();
    broadcast use vstd::string::group_string_axioms;
    for c in it: s.chars()
        invariant
            res@ == it.seq().take(it.index() as int),
    {
        res.push(c);
    }
    res
}

/// Splitting state after reading `s` from the left: the words already closed by
/// white space, and the run of non-white-space characters still open at the end.
pub open spec fn split_state(s: Seq<char>) -> (Seq<Seq<char>>, Seq<char>)
    decreases s.len(),
{
    if s.len() == 0 {
        (Seq::empty(), Seq::empty())
    } else {
        let (done, open) = split_state(s.drop_last());
        let c = s.last();
        if is_white_space(c) {
            if open.len() > 0 {
                (done.push(open), Seq::empty())
            } else {
                (done, Seq::empty())
            }
        } else {
            (done, open.push(c))
        }
    }
}

/// The words of `s`: its maximal runs of non-white-space characters, in order
/// (what `str::split_whitespace` yields).
pub open spec fn words(s: Seq<char>) -> Seq<Seq<char>> {
    let (done, open) = split_state(s);
    if open.len() > 0 {
        done.push(open)
    } else {
        done
    }
}

/// `parts` joined with `sep` between each two neighbours (what `[&str]::join` gives).
pub open spec fn join(parts: Seq<Seq<char>>, sep: Seq<char>) -> Seq<char>
    decreases parts.len(),
{
    if parts.len() == 0 {
        Seq::empty()
    } else if parts.len() == 1 {
        parts[0]
    } else {
        join(parts.drop_last(), sep) + sep + parts.last()
    }
}

/// One ASCII space.
pub open spec fn single_space() -> Seq<char> {
    seq![' ']
}

/// `s` with every run of white space folded to one ASCII space and none at either end.
pub open spec fn normalized(s: Seq<char>) -> Seq<char> {
    join(words(s), single_space())
}

proof fn lemma_join_push(parts: Seq<Seq<char>>, sep: Seq<char>, last: Seq<char>)
    ensures
        join(parts.push(last), sep) == if parts.len() == 0 {
            last
        } else {
            join(parts, sep) + sep + last
        },
{
    assert(parts.push(last).drop_last() =~= parts);
}

/// The text of `s` with white space folded: the words of `s` joined by single spaces.
pub fn normalize_space(s: &str) -> (res: String)
    ensures
        res@ == normalized(s@),
{
    let cs = chars_of(s);
    let mut out = String::new();
    let mut has_words = false;
    let mut in_word = false;
    let mut i: usize = 0;
    while i < cs.len()
        invariant
            i <= cs.len(),
            cs@ == s@,
            ({
                let (done, open) = split_state(cs@.take(i as int));
                &&& has_words == (done.len() > 0)
                &&& in_word == (open.len() > 0)
                &&& out@ == if open.len() > 0 {
                    if done.len() > 0 {
                        join(done, single_space()) + single_space() + open
                    } else {
                        open
                    }
                } else {
                    join(done, single_space())
                }
            }),
        decreases cs.len() - i,
    {
        let c = cs[i];
        let ghost prev = split_state(cs@.take(i as int));
        assert(cs@.take(i + 1).drop_last() =~= cs@.take(i as int));
        if char_is_white_space(c) {
            if in_word {
                proof {
                    lemma_join_push(prev.0, single_space(), prev.1);
                }
                has_words = true;
                in_word = false;
            }
        } else {
            if !in_word {
                if has_words {
                    push_char(&mut out, ' ');
                }
                in_word = true;
            }
            push_char(&mut out, c);
            proof {
                if prev.1.len() == 0 {
                    assert(prev.1.push(c) =~= seq![c]);
                }
            }
            assert(out@ =~= ({
                let (done, open) = split_state(cs@.take(i + 1));
                if done.len() > 0 {
                    join(done, single_space()) + single_space() + open
                } else {
                    open
                }
            }));
        }
        i = i + 1;
    }
    proof {
        assert(cs@.take(cs.len() as int) =~= s@);
        let (done, open) = split_state(s@);
        if open.len() > 0 {
            lemma_join_push(done, single_space(), open);
        }
    }
    out
}

/// No character of `w` is white space.
pub open spec fn has_no_white_space(w: Seq<char>) -> bool {
    forall|i: int| 0 <= i < w.len() ==> !is_white_space(#[trigger] w[i])
}

/// A proper word: non-empty and free of white space.
pub open spec fn is_word(w: Seq<char>) -> bool {
    w.len() > 0 && has_no_white_space(w)
}

/// White space in `t` is only ever a single ASCII space standing between two
/// characters that are not white space.
pub open spec fn is_folded(t: Seq<char>) -> bool {
    forall|i: int|
        0 <= i < t.len() && is_white_space(#[trigger] t[i]) ==> {
            &&& t[i] == ' '
            &&& 0 < i < t.len() - 1
            &&& !is_white_space(t[i - 1])
            &&& !is_white_space(t[i + 1])
        }
}

proof fn lemma_split_state_parts(s: Seq<char>)
    ensures
        forall|k: int| 0 <= k < split_state(s).0.len() ==> is_word(#[trigger] split_state(s).0[k]),
        has_no_white_space(split_state(s).1),
    decreases s.len(),
{
    if s.len() > 0 {
        lemma_split_state_parts(s.drop_last());
        let (done, open) = split_state(s.drop_last());
        let c = s.last();
        if !is_white_space(c) {
            assert forall|i: int| 0 <= i < open.push(c).len() implies !is_white_space(
                #[trigger] open.push(c)[i],
            ) by {
                if i < open.len() {
                    assert(open.push(c)[i] == open[i]);
                }
            }
        } else if open.len() > 0 {
            assert forall|k: int| 0 <= k < done.push(open).len() implies is_word(
                #[trigger] done.push(open)[k],
            ) by {
                if k < done.len() {
                    assert(done.push(open)[k] == done[k]);
                }
            }
        }
    }
}

/// Law: every word that `split_whitespace` yields is non-empty and free of white space.
pub proof fn lemma_words_are_proper(s: Seq<char>)
    ensures
        forall|k: int| 0 <= k < words(s).len() ==> is_word(#[trigger] words(s)[k]),
{
    lemma_split_state_parts(s);
    let (done, open) = split_state(s);
    if open.len() > 0 {
        assert forall|k: int| 0 <= k < done.push(open).len() implies is_word(
            #[trigger] done.push(open)[k],
        ) by {
            if k < done.len() {
                assert(done.push(open)[k] == done[k]);
            }
        }
    }
}

proof fn lemma_split_state_append_word(p: Seq<char>, w: Seq<char>)
    requires
        split_state(p).1.len() == 0,
        has_no_white_space(w),
    ensures
        split_state(p + w) == (split_state(p).0, w),
    decreases w.len(),
{
    if w.len() == 0 {
        assert(p + w =~= p);
    } else {
        let w0 = w.drop_last();
        assert forall|i: int| 0 <= i < w0.len() implies !is_white_space(#[trigger] w0[i]) by {
            assert(w0[i] == w[i]);
        }
        lemma_split_state_append_word(p, w0);
        assert((p + w).drop_last() =~= p + w0);
        assert((p + w).last() == w[w.len() - 1]);
        assert(w0.push(w.last()) =~= w);
    }
}

proof fn lemma_split_state_after_space(p: Seq<char>)
    ensures
        split_state(p + single_space()) == (words(p), Seq::<char>::empty()),
{
    assert((p + single_space()).drop_last() =~= p);
}

proof fn lemma_words_of_join(ws: Seq<Seq<char>>)
    requires
        forall|k: int| 0 <= k < ws.len() ==> is_word(#[trigger] ws[k]),
    ensures
        words(join(ws, single_space())) == ws,
    decreases ws.len(),
{
    if ws.len() == 0 {
        assert(words(Seq::<char>::empty()) =~= ws);
    } else if ws.len() == 1 {
        lemma_split_state_append_word(Seq::<char>::empty(), ws[0]);
        assert(Seq::<char>::empty() + ws[0] =~= ws[0]);
        assert(Seq::<Seq<char>>::empty().push(ws[0]) =~= ws);
    } else {
        let init = ws.drop_last();
        assert forall|k: int| 0 <= k < init.len() implies is_word(#[trigger] init[k]) by {
            assert(init[k] == ws[k]);
        }
        lemma_words_of_join(init);
        let p = join(init, single_space());
        lemma_split_state_after_space(p);
        lemma_split_state_append_word(p + single_space(), ws.last());
        assert(join(ws, single_space()) == p + single_space() + ws.last());
        assert(init.push(ws.last()) =~= ws);
    }
}

proof fn lemma_join_folded(ws: Seq<Seq<char>>)
    requires
        forall|k: int| 0 <= k < ws.len() ==> is_word(#[trigger] ws[k]),
    ensures
        is_folded(join(ws, single_space())),
        ws.len() > 0 ==> join(ws, single_space()).len() > 0 && !is_white_space(
            join(ws, single_space())[0],
        ) && !is_white_space(join(ws, single_space()).last()),
    decreases ws.len(),
{
    if ws.len() == 1 {
        assert(is_word(ws[0]));
    } else if ws.len() > 1 {
        let init = ws.drop_last();
        assert forall|k: int| 0 <= k < init.len() implies is_word(#[trigger] init[k]) by {
            assert(init[k] == ws[k]);
        }
        lemma_join_folded(init);
        let p = join(init, single_space());
        let w = ws.last();
        assert(is_word(w));
        let t = p + single_space() + w;
        assert(join(ws, single_space()) == t);
        assert forall|i: int| 0 <= i < t.len() && is_white_space(#[trigger] t[i]) implies {
            &&& t[i] == ' '
            &&& 0 < i < t.len() - 1
            &&& !is_white_space(t[i - 1])
            &&& !is_white_space(t[i + 1])
        } by {
            if i < p.len() {
                assert(t[i] == p[i]);
                assert(t[i - 1] == p[i - 1]);
                assert(t[i + 1] == p[i + 1]);
            } else if i == p.len() {
                assert(t[i - 1] == p.last());
                assert(t[i + 1] == w[0]);
            } else {
                assert(t[i] == w[i - p.len() - 1]);
            }
        }
        assert(t[0] == p[0]);
        assert(t.last() == w.last());
    }
}

/// Law: the folded text holds white space only as single ASCII spaces between words.
pub proof fn lemma_normalized_is_folded(s: Seq<char>)
    ensures
        is_folded(normalized(s)),
{
    lemma_words_are_proper(s);
    lemma_join_folded(words(s));
}

/// Law: folding white space twice gives what folding it once gives.
pub proof fn lemma_normalize_space_idempotent(s: Seq<char>)
    ensures
        normalized(normalized(s)) == normalized(s),
{
    lemma_words_are_proper(s);
    lemma_words_of_join(words(s));
}

/// A string holding exactly the characters `cs`.
pub fn string_of(cs: &Vec<char>) -> (res: String)
    ensures
        res@ == cs@,
{
    let mut out = String::new();
    let mut i: usize = 0;
    while i < cs.len()
        invariant
            i <= cs.len(),
            out@ == cs@.take(i as int),
        decreases cs.len() - i,
    {
        push_char(&mut out, cs[i]);
        assert(cs@.take(i + 1) =~= cs@.take(i as int).push(cs@[i as int]));
        i = i + 1;
    }
    assert(cs@.take(cs.len() as int) =~= cs@);
    out
}

/// Appends the characters `cs` to `out`.
pub fn append_chars(out: &mut String, cs: &Vec<char>)
    ensures
        final(out)@ == old(out)@ + cs@,
{
    let mut i: usize = 0;
    while i < cs.len()
        invariant
            i <= cs.len(),
            out@ == old(out)@ + cs@.take(i as int),
        decreases cs.len() - i,
    {
        push_char(out, cs[i]);
        assert(old(out)@ + cs@.take(i + 1) =~= (old(out)@ + cs@.take(i as int)).push(cs@[i as int]));
        i = i + 1;
    }
    assert(cs@.take(cs.len() as int) =~= cs@);
}

/// Appends the text `t` to `out`.
pub fn append_str(out: &mut String, t: &str)
    ensures
        final(out)@ == old(out)@ + t@,
{
    let cs = chars_of(t);
    append_chars(out, &cs);
}

/// Whether `p` is a prefix of `s`.
pub fn has_prefix(s: &Vec<char>, p: &Vec<char>) -> (res: bool)
    ensures
        res == p@.is_prefix_of(s@),
{
    if p.len() > s.len() {
        return false;
    }
    let mut i: usize = 0;
    while i < p.len()
        invariant
            p.len() <= s.len(),
            i <= p.len(),
            forall|k: int| 0 <= k < i ==> p@[k] == s@[k],
        decreases p.len() - i,
    {
        if p[i] != s[i] {
            return false;
        }
        i = i + 1;
    }
    assert(s@.take(p.len() as int) =~= p@);
    true
}

/// The characters of `s` from position `start` on.
pub fn chars_from(s: &Vec<char>, start: usize) -> (res: Vec<char>)
    requires
        start <= s.len(),
    ensures
        res@ == s@.skip(start as int),
{
    chars_between(s, start, s.len())
}

/// The characters of `s` at positions `start` up to (not including) `end`.
pub fn chars_between(s: &Vec<char>, start: usize, end: usize) -> (res: Vec<char>)
    requires
        start <= end <= s.len(),
    ensures
        res@ == s@.subrange(start as int, end as int),
{
    let mut res: Vec<char> = Vec::new();
    let mut i: usize = start;
    while i < end
        invariant
            start <= i <= end <= s.len(),
            res@ == s@.subrange(start as int, i as int),
        decreases end - i,
    {
        res.push(s[i]);
        assert(s@.subrange(start as int, i + 1) =~= s@.subrange(start as int, i as int).push(
            s@[i as int],
        ));
        i = i + 1;
    }
    res
}

/// `s` without its leading white space.
pub open spec fn trim_start(s: Seq<char>) -> Seq<char>
    decreases s.len(),
{
    if s.len() > 0 && is_white_space(s[0]) {
        trim_start(s.drop_first())
    } else {
        s
    }
}

/// `s` without its trailing white space.
pub open spec fn trim_end(s: Seq<char>) -> Seq<char>
    decreases s.len(),
{
    if s.len() > 0 && is_white_space(s.last()) {
        trim_end(s.drop_last())
    } else {
        s
    }
}

/// `s` without leading and trailing white space (what `str::trim` gives).
pub open spec fn trimmed(s: Seq<char>) -> Seq<char> {
    trim_end(trim_start(s))
}

/// The characters of `s` without leading and trailing white space.
pub fn trim_chars(s: &Vec<char>) -> (res: Vec<char>)
    ensures
        res@ == trimmed(s@),
{
    let mut i: usize = 0;
    assert(s@.skip(0) =~= s@);
    while i < s.len() && char_is_white_space(s[i])
        invariant
            i <= s.len(),
            trim_start(s@) == trim_start(s@.skip(i as int)),
        decreases s.len() - i,
    {
        assert(s@.skip(i as int).drop_first() =~= s@.skip(i + 1));
        i = i + 1;
    }
    assert(trim_start(s@.skip(i as int)) == s@.skip(i as int));
    let mut j: usize = s.len();
    while j > i && char_is_white_space(s[j - 1])
        invariant
            i <= j <= s.len(),
            trim_start(s@) == s@.skip(i as int),
            trim_end(s@.skip(i as int)) == trim_end(s@.subrange(i as int, j as int)),
        decreases j,
    {
        assert(s@.subrange(i as int, j as int).drop_last() =~= s@.subrange(i as int, j - 1));
        j = j - 1;
    }
    assert(s@.skip(i as int) =~= s@.subrange(i as int, s.len() as int));
    chars_between(s, i, j)
}

/// The trimmed, non-empty ones among `parts`, in order.
pub open spec fn trimmed_nonempty(parts: Seq<Seq<char>>) -> Seq<Seq<char>>
    decreases parts.len(),
{
    if parts.len() == 0 {
        Seq::empty()
    } else {
        let rest = trimmed_nonempty(parts.drop_last());
        let t = trimmed(parts.last());
        if t.len() > 0 {
            rest.push(t)
        } else {
            rest
        }
    }
}

/// The views of the string slices in `parts`.
pub open spec fn str_views(parts: Seq<&str>) -> Seq<Seq<char>> {
    parts.map_values(|p: &str| p@)
}

/// The parts, each trimmed of white space, with the empty ones left out,
/// joined by `sep`.
pub fn join_nonempty<const N: usize>(parts: [&str; N], sep: &str) -> (res: String)
    ensures
        res@ == join(trimmed_nonempty(str_views(parts@)), sep@),
{
    let sep_chars = chars_of(sep);
    let mut out = String::new();
    let mut count: usize = 0;
    let mut i: usize = 0;
    while i < N
        invariant
            i <= N,
            count <= i,
            N == parts@.len(),
            sep_chars@ == sep@,
            count == trimmed_nonempty(str_views(parts@.take(i as int))).len(),
            out@ == join(trimmed_nonempty(str_views(parts@.take(i as int))), sep@),
        decreases N - i,
    {
        let part: &str = parts[i];
        let t = trim_chars(&chars_of(part));
        let ghost before = trimmed_nonempty(str_views(parts@.take(i as int)));
        assert(str_views(parts@.take(i + 1)).drop_last() =~= str_views(parts@.take(i as int)));
        assert(str_views(parts@.take(i + 1)).last() == part@);
        if t.len() > 0 {
            if count > 0 {
                append_chars(&mut out, &sep_chars);
            }
            append_chars(&mut out, &t);
            proof {
                lemma_join_push(before, sep@, t@);
            }
            count = count + 1;
        }
        i = i + 1;
    }
    assert(parts@.take(N as int) =~= parts@);
    out
}

/// The marks that announce an author on the publishers' pages, in the order they are tried.
pub open spec fn author_marks() -> Seq<Seq<char>> {
    seq![seq!['著', '：'], seq!['[', '著', ']'], seq!['［', '著', '］']]
}

/// The author text of `s`: white space folded, then the first announcing mark
/// that begins it (if any) cut off and the rest folded again.
pub open spec fn cleaned_author(s: Seq<char>) -> Seq<char> {
    let n = normalized(s);
    let marks = author_marks();
    if marks[0].is_prefix_of(n) {
        normalized(n.skip(marks[0].len() as int))
    } else if marks[1].is_prefix_of(n) {
        normalized(n.skip(marks[1].len() as int))
    } else if marks[2].is_prefix_of(n) {
        normalized(n.skip(marks[2].len() as int))
    } else {
        n
    }
}

/// Folds the white space of an author line and drops a leading authorship mark.
pub fn clean_author_prefix(s: &str) -> (res: String)
    ensures
        res@ == cleaned_author(s@),
{
    let n = normalize_space(s);
    let cs = chars_of(n.as_str());
    let marks: Vec<Vec<char>> = vec![vec!['著', '：'], vec!['[', '著', ']'], vec!['［', '著', '］']];
    assert(marks@.len() == 3);
    assert(marks@[0]@ == author_marks()[0]);
    assert(marks@[1]@ == author_marks()[1]);
    assert(marks@[2]@ == author_marks()[2]);
    let mut k: usize = 0;
    while k < marks.len()
        invariant
            k <= marks.len() == 3,
            cs@ == normalized(s@),
            forall|j: int| 0 <= j < 3 ==> #[trigger] marks@[j]@ == author_marks()[j],
            forall|j: int| 0 <= j < k ==> !author_marks()[j].is_prefix_of(cs@),
        decreases marks.len() - k,
    {
        if has_prefix(&cs, &marks[k]) {
            let rest = string_of(&chars_from(&cs, marks[k].len()));
            return normalize_space(rest.as_str());
        }
        k = k + 1;
    }
    n
}

/// Law: the cleaned author text holds white space only as single spaces between words.
pub proof fn lemma_cleaned_author_is_folded(s: Seq<char>)
    ensures
        is_folded(cleaned_author(s)),
{
    let n = normalized(s);
    lemma_normalized_is_folded(s);
    lemma_normalized_is_folded(n.skip(2));
    lemma_normalized_is_folded(n.skip(3));
}

/// The characters an ISBN is written with: ASCII digits and the check character `X`.
pub open spec fn is_isbn_char(c: char) -> bool {
    ('0' <= c && c <= '9') || c == 'X'
}

/// The ISBN characters of `s`, in order.
pub open spec fn isbn_chars(s: Seq<char>) -> Seq<char>
    decreases s.len(),
{
    if s.len() == 0 {
        Seq::empty()
    } else if is_isbn_char(s.last()) {
        isbn_chars(s.drop_last()).push(s.last())
    } else {
        isbn_chars(s.drop_last())
    }
}

/// Keeps only the digits and `X` of an ISBN as printed (hyphens, spaces, prefixes go).
pub fn normalize_isbn(s: &str) -> (res: String)
    ensures
        res@ == isbn_chars(s@),
{
    let cs = chars_of(s);
    let mut out = String::new();
    let mut i: usize = 0;
    while i < cs.len()
        invariant
            i <= cs.len(),
            cs@ == s@,
            out@ == isbn_chars(cs@.take(i as int)),
        decreases cs.len() - i,
    {
        let c = cs[i];
        assert(cs@.take(i + 1).drop_last() =~= cs@.take(i as int));
        if ('0' <= c && c <= '9') || c == 'X' {
            push_char(&mut out, c);
        }
        i = i + 1;
    }
    assert(cs@.take(cs.len() as int) =~= s@);
    out
}

proof fn lemma_isbn_chars_only(s: Seq<char>)
    ensures
        forall|i: int| 0 <= i < isbn_chars(s).len() ==> is_isbn_char(#[trigger] isbn_chars(s)[i]),
        isbn_chars(s).len() <= s.len(),
    decreases s.len(),
{
    if s.len() > 0 {
        lemma_isbn_chars_only(s.drop_last());
        let r = isbn_chars(s.drop_last());
        if is_isbn_char(s.last()) {
            assert forall|i: int| 0 <= i < r.push(s.last()).len() implies is_isbn_char(
                #[trigger] r.push(s.last())[i],
            ) by {
                if i < r.len() {
                    assert(r.push(s.last())[i] == r[i]);
                }
            }
        }
    }
}

proof fn lemma_isbn_chars_of_isbn_text(t: Seq<char>)
    requires
        forall|i: int| 0 <= i < t.len() ==> is_isbn_char(#[trigger] t[i]),
    ensures
        isbn_chars(t) == t,
    decreases t.len(),
{
    if t.len() > 0 {
        let t0 = t.drop_last();
        assert forall|i: int| 0 <= i < t0.len() implies is_isbn_char(#[trigger] t0[i]) by {
            assert(t0[i] == t[i]);
        }
        lemma_isbn_chars_of_isbn_text(t0);
        assert(t0.push(t.last()) =~= t);
    }
}

/// Law: a normalized ISBN consists of digits and `X` only, and normalizing it
/// again leaves it as it is.
pub proof fn lemma_normalize_isbn_idempotent(s: Seq<char>)
    ensures
        forall|i: int| 0 <= i < isbn_chars(s).len() ==> is_isbn_char(#[trigger] isbn_chars(s)[i]),
        isbn_chars(isbn_chars(s)) == isbn_chars(s),
{
    lemma_isbn_chars_only(s);
    lemma_isbn_chars_of_isbn_text(isbn_chars(s));
}

} // verus!
