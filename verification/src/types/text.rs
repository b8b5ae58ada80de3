use vstd::prelude::*;

verus! {

/// The parts of `s` between its separators, empty parts included. There is
/// always one part more than there are separators.
pub open spec fn split(s: Seq<char>, sep: spec_fn(char) -> bool) -> Seq<Seq<char>>
    decreases s.len(),
{
    if s.len() == 0 {
        seq![Seq::empty()]
    } else {
        let before = split(s.drop_last(), sep);
        if sep(s.last()) {
            before.push(Seq::empty())
        } else {
            before.drop_last().push(before.last().push(s.last()))
        }
    }
}

pub open spec fn is_non_empty() -> spec_fn(Seq<char>) -> bool {
    |part: Seq<char>| part.len() > 0
}

/// The parts that are not empty, in their order.
pub open spec fn non_empty(parts: Seq<Seq<char>>) -> Seq<Seq<char>> {
    parts.filter(is_non_empty())
}

/// The non-empty parts of `s` between its separators.
pub open spec fn segments(s: Seq<char>, sep: spec_fn(char) -> bool) -> Seq<Seq<char>> {
    non_empty(split(s, sep))
}

/// The separator that is one given character.
pub open spec fn is_char(sep: char) -> spec_fn(char) -> bool {
    |c: char| c == sep
}

/// The parts written one after the other, with `sep` between two of them.
pub open spec fn join(parts: Seq<Seq<char>>, sep: char) -> Seq<char>
    decreases parts.len(),
{
    if parts.len() == 0 {
        Seq::empty()
    } else if parts.len() == 1 {
        parts[0]
    } else {
        join(parts.drop_last(), sep).push(sep) + parts.last()
    }
}

/// The texts that a sequence of strings holds.
pub open spec fn texts(strings: Seq<String>) -> Seq<Seq<char>> {
    strings.map_values(|s: String| s@)
}

/// An ASCII letter or digit.
pub open spec fn is_alnum(c: char) -> bool {
    ||| '0' <= c <= '9'
    ||| 'A' <= c <= 'Z'
    ||| 'a' <= c <= 'z'
}

pub open spec fn is_not_alnum() -> spec_fn(char) -> bool {
    |c: char| !is_alnum(c)
}

/// The lower-case form of an ASCII capital; any other character itself.
pub open spec fn lower(c: char) -> char {
    if 'A' <= c <= 'Z' {
        ((c as u8) + 32) as char
    } else {
        c
    }
}

pub open spec fn lowered(s: Seq<char>) -> Seq<char> {
    Seq::new(s.len(), |i: int| lower(s[i]))
}

/// The URL-friendly form of a text: its runs of ASCII letters and digits,
/// in lower case, with one `-` between two runs.
pub open spec fn slug(s: Seq<char>) -> Seq<char> {
    join(segments(lowered(s), is_not_alnum()), '-')
}

pub proof fn lemma_split_len(s: Seq<char>, sep: spec_fn(char) -> bool)
    ensures
        split(s, sep).len() >= 1,
    decreases s.len(),
{
    if s.len() > 0 {
        lemma_split_len(s.drop_last(), sep);
    }
}

/// How the parts change when one more character is read.
pub proof fn lemma_split_push(s: Seq<char>, c: char, sep: spec_fn(char) -> bool)
    ensures
        split(s, sep).len() >= 1,
        sep(c) ==> split(s.push(c), sep) == split(s, sep).push(Seq::empty()),
        !sep(c) ==> split(s.push(c), sep) == split(s, sep).drop_last().push(
            split(s, sep).last().push(c),
        ),
{
    lemma_split_len(s, sep);
    assert(s.push(c).drop_last() =~= s);
}

pub proof fn lemma_non_empty_push(parts: Seq<Seq<char>>, part: Seq<char>)
    ensures
        non_empty(parts.push(part)) == if part.len() > 0 {
            non_empty(parts).push(part)
        } else {
            non_empty(parts)
        },
{
    reveal(Seq::filter);
    assert(parts.push(part).drop_last() =~= parts);
}

pub proof fn lemma_join_push(parts: Seq<Seq<char>>, part: Seq<char>, sep: char)
    ensures
        join(parts.push(part), sep) == if parts.len() == 0 {
            part
        } else {
            join(parts, sep).push(sep) + part
        },
{
    assert(parts.push(part).drop_last() =~= parts);
}

/// Growing the last part by one character grows the joined text by it.
pub proof fn lemma_join_grow(parts: Seq<Seq<char>>, part: Seq<char>, c: char, sep: char)
    ensures
        join(parts.push(part.push(c)), sep) == join(parts.push(part), sep).push(c),
{
    lemma_join_push(parts, part.push(c), sep);
    lemma_join_push(parts, part, sep);
    if parts.len() > 0 {
        assert(join(parts, sep).push(sep) + part.push(c) =~= (join(parts, sep).push(sep)
            + part).push(c));
    }
}

/// The text with each occurrence of `pattern` replaced by `with`, the
/// occurrences taken from the left and without overlap.
pub open spec fn replaced(text: Seq<char>, pattern: Seq<char>, with: Seq<char>) -> Seq<char>
    recommends
        pattern.len() > 0,
    decreases text.len(),
{
    if pattern.len() == 0 || text.len() < pattern.len() {
        text
    } else if text.take(pattern.len() as int) == pattern {
        with + replaced(text.skip(pattern.len() as int), pattern, with)
    } else {
        seq![text[0]] + replaced(text.skip(1), pattern, with)
    }
}

/// The text with each `from` replaced by `to`.
pub open spec fn with_char_replaced(s: Seq<char>, from: char, to: char) -> Seq<char> {
    Seq::new(
        s.len(),
        |i: int|
            if s[i] == from {
                to
            } else {
                s[i]
            },
    )
}

/// Replacing a pattern of one character by one character replaces each
/// such character where it stands.
pub proof fn lemma_replaced_char(s: Seq<char>, from: char, to: char)
    ensures
        replaced(s, seq![from], seq![to]) == with_char_replaced(s, from, to),
    decreases s.len(),
{
    let pattern = seq![from];
    let with = seq![to];
    if s.len() == 0 {
        assert(replaced(s, pattern, with) =~= with_char_replaced(s, from, to));
    } else {
        lemma_replaced_char(s.skip(1), from, to);
        let rest = with_char_replaced(s.skip(1), from, to);
        if s.take(1) == pattern {
            assert(s.take(1)[0] == pattern[0]);
            assert(with + rest =~= with_char_replaced(s, from, to));
        } else {
            if s[0] == from {
                assert(s.take(1) =~= pattern);
            }
            assert(seq![s[0]] + rest =~= with_char_replaced(s, from, to));
        }
    }
}

/// `str::replace` with a text as the pattern: every occurrence of the
/// pattern, taken from the left and without overlap, becomes `with`.
#[verifier::external_body]
pub(crate) fn replace_text(text: &str, pattern: &str, with: &str) -> (r: String)
    requires
        pattern@.len() > 0,
    ensures
        r@ == replaced(text@, pattern@, with@),
{
    text.replace(pattern, with)
}

/// `String::push`: appends one character.
#[verifier::external_body]
pub(crate) fn push_char(s: &mut String, c: char)
    ensures
        final(s)@ == old(s)@.push(c),
{
    s.push(c)
}

pub fn is_ascii_alphanumeric(c: char) -> (r: bool)
    ensures
        r == is_alnum(c),
{
    ('0' <= c && c <= '9') || ('A' <= c && c <= 'Z') || ('a' <= c && c <= 'z')
}

pub fn to_ascii_lowercase(c: char) -> (r: char)
    ensures
        r == lower(c),
{
    if 'A' <= c && c <= 'Z' {
        let b: u8 = c as u8;
        (b + 32) as char
    } else {
        c
    }
}

/// Cuts `s` at each `sep` and keeps the parts that are not empty.
pub fn split_segments(s: &str, sep: char) -> (r: Vec<String>)
    ensures
        texts(r@) == segments(s@, is_char(sep)),
{
    let mut out: Vec<String> = Vec::new();
    let mut cur = String::new();
    let ghost mut pos: int = 0;
    proof {
        assert(texts(out@) =~= Seq::<Seq<char>>::empty());
        assert(split(s@.take(0), is_char(sep)).drop_last() =~= Seq::<Seq<char>>::empty());
        reveal(Seq::filter);
    }
    for c in it: s.chars()
        invariant
            it.seq() == s@,
            pos == it.index(),
            0 <= pos <= s@.len(),
            texts(out@) == non_empty(split(s@.take(pos), is_char(sep)).drop_last()),
            cur@ == split(s@.take(pos), is_char(sep)).last(),
    {
        proof {
            let before = s@.take(pos);
            assert(s@.take(pos + 1) =~= before.push(c));
            lemma_split_push(before, c, is_char(sep));
            let parts = split(before, is_char(sep));
            assert(parts.drop_last().push(parts.last()) =~= parts);
            lemma_non_empty_push(parts.drop_last(), parts.last());
            assert(parts.push(Seq::empty()).drop_last() =~= parts);
            assert(parts.drop_last().push(parts.last().push(c)).drop_last()
                =~= parts.drop_last());
        }
        if c == sep {
            if !cur.as_str().is_empty() {
                proof {
                    assert(texts(out@.push(cur)) =~= texts(out@).push(cur@));
                }
                out.push(cur);
            }
            cur = String::new();
        } else {
            push_char(&mut cur, c);
        }
        proof {
            pos = pos + 1;
        }
    }
    proof {
        assert(s@.take(pos) =~= s@);
        let parts = split(s@, is_char(sep));
        lemma_split_len(s@, is_char(sep));
        assert(parts.drop_last().push(parts.last()) =~= parts);
        lemma_non_empty_push(parts.drop_last(), parts.last());
        assert(texts(out@.push(cur)) =~= texts(out@).push(cur@));
    }
    if !cur.as_str().is_empty() {
        out.push(cur);
    }
    out
}

/// The URL-friendly form of a text.
pub fn slugify(s: &str) -> (r: String)
    ensures
        r@ == slug(s@),
{
    let mut out = String::new();
    let mut in_run = false;
    let mut any = false;
    let ghost mut pos: int = 0;
    let ghost low = lowered(s@);
    proof {
        assert(split(low.take(0), is_not_alnum()).drop_last() =~= Seq::<Seq<char>>::empty());
        reveal(Seq::filter);
    }
    for c in it: s.chars()
        invariant
            it.seq() == s@,
            pos == it.index(),
            0 <= pos <= s@.len(),
            low == lowered(s@),
            ({
                let parts = split(low.take(pos), is_not_alnum());
                let done = non_empty(parts.drop_last());
                &&& in_run == (parts.last().len() > 0)
                &&& any == (in_run || done.len() > 0)
                &&& out@ == join(
                    if in_run {
                        done.push(parts.last())
                    } else {
                        done
                    },
                    '-',
                )
            }),
    {
        let l = to_ascii_lowercase(c);
        proof {
            let before = low.take(pos);
            assert(low[pos] == l);
            assert(low.take(pos + 1) =~= before.push(l));
            lemma_split_push(before, l, is_not_alnum());
            let parts = split(before, is_not_alnum());
            let done = non_empty(parts.drop_last());
            assert(parts.drop_last().push(parts.last()) =~= parts);
            lemma_non_empty_push(parts.drop_last(), parts.last());
            assert(parts.push(Seq::empty()).drop_last() =~= parts);
            assert(parts.drop_last().push(parts.last().push(l)).drop_last()
                =~= parts.drop_last());
            lemma_join_grow(done, parts.last(), l, '-');
            lemma_join_push(done, seq![l], '-');
            assert(Seq::<char>::empty().push(l) =~= seq![l]);
            if !in_run {
                assert(parts.last() =~= Seq::<char>::empty());
            }
            assert(join(done, '-').push('-') + seq![l] =~= join(done, '-').push('-').push(l));
        }
        if is_ascii_alphanumeric(l) {
            if !in_run && any {
                push_char(&mut out, '-');
            }
            push_char(&mut out, l);
            in_run = true;
            any = true;
        } else {
            in_run = false;
        }
        proof {
            pos = pos + 1;
        }
    }
    proof {
        assert(low.take(pos) =~= low);
        let parts = split(low, is_not_alnum());
        lemma_split_len(low, is_not_alnum());
        assert(parts.drop_last().push(parts.last()) =~= parts);
        lemma_non_empty_push(parts.drop_last(), parts.last());
    }
    out
}


/// The text with its ASCII capitals in lower case.
pub fn to_lowercase_text(s: &str) -> (r: String)
    ensures
        r@ == lowered(s@),
{
    let mut out = String::new();
    let ghost mut pos: int = 0;
    for c in it: s.chars()
        invariant
            it.seq() == s@,
            pos == it.index(),
            0 <= pos <= s@.len(),
            out@ == lowered(s@).take(pos),
    {
        let l = to_ascii_lowercase(c);
        proof {
            assert(lowered(s@).take(pos + 1) =~= lowered(s@).take(pos).push(l));
            pos = pos + 1;
        }
        push_char(&mut out, l);
    }
    proof {
        assert(lowered(s@).take(pos) =~= lowered(s@));
    }
    out
}

/// Whether two texts are the same but for the case of their ASCII letters.
pub fn eq_ignore_case(a: &str, b: &str) -> (r: bool)
    ensures
        r == (lowered(a@) == lowered(b@)),
{
    to_lowercase_text(a) == to_lowercase_text(b)
}

/// The text occurs in `hay` at the place `at`.
pub open spec fn occurs_at(hay: Seq<char>, needle: Seq<char>, at: int) -> bool {
    0 <= at && at + needle.len() <= hay.len() && hay.subrange(at, at + needle.len()) == needle
}

/// The text occurs somewhere in `hay`.
pub open spec fn contains_text(hay: Seq<char>, needle: Seq<char>) -> bool {
    exists|at: int| occurs_at(hay, needle, at)
}

/// The characters of a text.
pub fn chars_of(s: &str) -> (r: Vec<char>)
    ensures
        r@ == s@,
{
    let mut out: Vec<char> = Vec::new();
    let ghost mut pos: int = 0;
    for c in it: s.chars()
        invariant
            it.seq() == s@,
            pos == it.index(),
            0 <= pos <= s@.len(),
            out@ == s@.take(pos),
    {
        proof {
            assert(s@.take(pos + 1) =~= s@.take(pos).push(c));
            pos = pos + 1;
        }
        out.push(c);
    }
    proof {
        assert(s@.take(pos) =~= s@);
    }
    out
}

/// Whether `needle` occurs somewhere in `hay`.
pub fn text_contains(hay: &str, needle: &str) -> (r: bool)
    ensures
        r == contains_text(hay@, needle@),
{
    let h = chars_of(hay);
    let n = chars_of(needle);
    let hl = h.len();
    let nl = n.len();
    if nl > hl {
        proof {
            assert forall|at: int| !occurs_at(hay@, needle@, at) by {}
        }
        return false;
    }
    let last = hl - nl;
    let mut at: usize = 0;
    while at <= last
        invariant
            at <= last + 1,
            last == hl - nl,
            hl == h@.len(),
            nl == n@.len(),
            h@ == hay@,
            n@ == needle@,
            forall|k: int| 0 <= k < at ==> !occurs_at(hay@, needle@, k),
        decreases last + 1 - at,
    {
        let mut j: usize = 0;
        let mut same = true;
        while j < nl && same
            invariant
                j <= nl,
                at <= last,
                last == hl - nl,
                hl == h@.len(),
                nl == n@.len(),
                same ==> forall|k: int| 0 <= k < j ==> #[trigger] h@[at + k] == n@[k],
                !same ==> exists|k: int| 0 <= k < nl && #[trigger] h@[at + k] != n@[k],
            decreases
                    (nl - j) + (if same {
                        1int
                    } else {
                        0int
                    }),
        {
            if h[at + j] != n[j] {
                same = false;
            } else {
                j = j + 1;
            }
        }
        if same {
            proof {
                let part = hay@.subrange(at as int, at + nl);
                assert forall|k: int| 0 <= k < nl implies part[k] == needle@[k] by {
                    assert(h@[at + k] == n@[k]);
                }
                assert(part =~= needle@);
                assert(occurs_at(hay@, needle@, at as int));
            }
            return true;
        }
        proof {
            let k = choose|k: int| 0 <= k < nl && #[trigger] h@[at + k] != n@[k];
            assert(hay@.subrange(at as int, at + nl)[k] == h@[at + k]);
        }
        at = at + 1;
    }
    proof {
        assert forall|k: int| !occurs_at(hay@, needle@, k) by {}
    }
    false
}

/// Whether `needle` occurs somewhere in `hay`, whatever the case of the
/// ASCII letters of the two.
pub fn text_contains_ignore_case(hay: &str, needle: &str) -> (r: bool)
    ensures
        r == contains_text(lowered(hay@), lowered(needle@)),
{
    let h = to_lowercase_text(hay);
    let n = to_lowercase_text(needle);
    text_contains(h.as_str(), n.as_str())
}

/// Whether two texts are the same.
pub fn text_eq(a: &str, b: &str) -> (r: bool)
    ensures
        r == (a@ == b@),
{
    let x = a.to_owned();
    let y = b.to_owned();
    x == y
}

} // verus!
