use crate::error::Error;
use crate::types::enc_string::EncString;
use crate::types::percent::{decoded_text, is_canonical};
use crate::types::text::{
    is_char, lemma_non_empty_push, lemma_split_len, lemma_split_push, non_empty, segments, split,
    split_segments, texts,
};
use vstd::prelude::*;
use vstd::std_specs::convert::{FromSpec, FromSpecImpl};
use vstd::string::StringExecFns;

verus! {

/// A path: encoded segments from the root to the leaf.
#[derive(Debug)]
pub struct EncPath(Vec<EncString>);

/// The encoded texts of a sequence of segments.
pub open spec fn encoded_texts(segments: Seq<EncString>) -> Seq<Seq<char>> {
    segments.map_values(|e: EncString| e@)
}

/// The text of a path: `/` and the segment, for each segment in turn.
pub open spec fn path_text(segments: Seq<Seq<char>>) -> Seq<char>
    decreases segments.len(),
{
    if segments.len() == 0 {
        Seq::empty()
    } else {
        path_text(segments.drop_last()).push('/') + segments.last()
    }
}

/// The plain text of a path: `/` and the decoded segment, for each segment
/// in turn; none where a segment does not decode.
pub open spec fn plain_path_text(segments: Seq<Seq<char>>) -> Option<Seq<char>>
    decreases segments.len(),
{
    if segments.len() == 0 {
        Some(Seq::empty())
    } else {
        match (plain_path_text(segments.drop_last()), decoded_text(segments.last())) {
            (Some(before), Some(last)) => Some(before.push('/') + last),
            _ => None,
        }
    }
}

/// Every segment is canonical.
pub open spec fn all_canonical(segments: Seq<Seq<char>>) -> bool {
    forall|i: int| 0 <= i < segments.len() ==> is_canonical(#[trigger] segments[i])
}

/// No segment is empty or holds a `/`.
pub open spec fn proper_segments(segments: Seq<Seq<char>>) -> bool {
    forall|i: int|
        0 <= i < segments.len() ==> (#[trigger] segments[i]).len() > 0 && !segments[i].contains(
            '/',
        )
}

/// A path whose beginning does not decode does not decode.
pub proof fn lemma_plain_prefix(segments: Seq<Seq<char>>, k: int)
    requires
        0 <= k <= segments.len(),
        plain_path_text(segments.take(k)) is None,
    ensures
        plain_path_text(segments) is None,
    decreases segments.len() - k,
{
    if k < segments.len() {
        assert(segments.take(k + 1).drop_last() =~= segments.take(k));
        lemma_plain_prefix(segments, k + 1);
    } else {
        assert(segments.take(k) =~= segments);
    }
}

/// Text without a separator, put behind a text, lengthens its last part.
pub proof fn lemma_split_append(a: Seq<char>, b: Seq<char>, sep: spec_fn(char) -> bool)
    requires
        forall|i: int| 0 <= i < b.len() ==> !sep(#[trigger] b[i]),
    ensures
        split(a, sep).len() >= 1,
        split(a + b, sep) == split(a, sep).drop_last().push(split(a, sep).last() + b),
    decreases b.len(),
{
    lemma_split_len(a, sep);
    let parts = split(a, sep);
    if b.len() == 0 {
        assert(a + b =~= a);
        assert(parts.last() + b =~= parts.last());
        assert(parts.drop_last().push(parts.last()) =~= parts);
    } else {
        let front = b.drop_last();
        let c = b.last();
        assert forall|i: int| 0 <= i < front.len() implies !sep(#[trigger] front[i]) by {
            assert(front[i] == b[i]);
        }
        lemma_split_append(a, front, sep);
        assert(a + b =~= (a + front).push(c));
        lemma_split_push(a + front, c, sep);
        let mid = parts.drop_last().push(parts.last() + front);
        assert(mid.drop_last() =~= parts.drop_last());
        assert((parts.last() + front).push(c) =~= parts.last() + b);
    }
}

/// Reading the text of a path gives its segments back, where none of them
/// is empty or holds a `/`.
pub proof fn lemma_path_round_trip(segs: Seq<Seq<char>>)
    requires
        proper_segments(segs),
    ensures
        segments(path_text(segs), is_char('/')) == segs,
    decreases segs.len(),
{
    let sep = is_char('/');
    if segs.len() == 0 {
        reveal(Seq::filter);
        assert(split(path_text(segs), sep).drop_last() =~= Seq::<Seq<char>>::empty());
        assert(split(path_text(segs), sep) =~= Seq::<Seq<char>>::empty().push(Seq::empty()));
        lemma_non_empty_push(Seq::empty(), Seq::empty());
        assert(non_empty(Seq::<Seq<char>>::empty()) =~= Seq::<Seq<char>>::empty());
        assert(segments(path_text(segs), sep) =~= segs);
    } else {
        let front = segs.drop_last();
        let last = segs.last();
        assert forall|i: int| 0 <= i < front.len() implies (#[trigger] front[i]).len() > 0
            && !front[i].contains('/') by {
            assert(front[i] == segs[i]);
        }
        lemma_path_round_trip(front);
        let t = path_text(front);
        lemma_split_push(t, '/', sep);
        assert forall|i: int| 0 <= i < last.len() implies !sep(#[trigger] last[i]) by {
            if last[i] == '/' {
                assert(last.contains('/'));
            }
        }
        lemma_split_append(t.push('/'), last, sep);
        let parts = split(t, sep);
        assert(parts.push(Seq::empty()).drop_last() =~= parts);
        assert(Seq::<char>::empty() + last =~= last);
        assert(split(path_text(segs), sep) == parts.push(last));
        lemma_non_empty_push(parts, last);
        assert(front.push(last) =~= segs);
    }
}

impl View for EncPath {
    type V = Seq<Seq<char>>;

    /// The encoded texts of the segments, root first.
    closed spec fn view(&self) -> Seq<Seq<char>> {
        encoded_texts(self.0@)
    }
}

impl EncPath {
    /// The plain text of the path. Fails where a segment does not decode.
    pub fn plain(&self) -> (r: Result<String, Error>)
        ensures
            match r {
                Ok(p) => plain_path_text(self@) == Some(p@),
                Err(e) => e == Error::InvalidArgument && plain_path_text(self@) is None,
            },
    {
        let mut res = String::new();
        let n = self.0.len();
        let mut i: usize = 0;
        while i < n
            invariant
                i <= n,
                n == self.0.len(),
                plain_path_text(self@.take(i as int)) == Some(res@),
            decreases n - i,
        {
            proof {
                assert(self@.take(i + 1).drop_last() =~= self@.take(i as int));
                assert(self@.take(i + 1).last() == self.0[i as int]@);
            }
            match self.0[i].plain() {
                Ok(text) => {
                    res.append("/");
                    res.append(text.as_str());
                    proof {
                        reveal_strlit("/");
                        assert("/"@ =~= seq!['/']);
                        assert(res@ =~= plain_path_text(self@.take(i as int))->0.push('/')
                            + text@);
                    }
                },
                Err(e) => {
                    proof {
                        lemma_plain_prefix(self@, i + 1);
                    }
                    return Err(e);
                },
            }
            i = i + 1;
        }
        proof {
            assert(self@.take(n as int) =~= self@);
        }
        Ok(res)
    }

    /// The text of the path, as it is written in a URL or stored.
    pub fn to_string(&self) -> (r: String)
        ensures
            r@ == path_text(self@),
    {
        let mut res = String::new();
        let n = self.0.len();
        let mut i: usize = 0;
        while i < n
            invariant
                i <= n,
                n == self.0.len(),
                res@ == path_text(self@.take(i as int)),
            decreases n - i,
        {
            proof {
                assert(self@.take(i + 1).drop_last() =~= self@.take(i as int));
                assert(self@.take(i + 1).last() == self.0[i as int]@);
                reveal_strlit("/");
                assert("/"@ =~= seq!['/']);
            }
            let ghost before = res@;
            res.append("/");
            res.append(self.0[i].encoded().as_str());
            proof {
                assert(res@ =~= before.push('/') + self.0[i as int]@);
            }
            i = i + 1;
        }
        proof {
            assert(self@.take(n as int) =~= self@);
        }
        res
    }

    /// Reads a path from its text: the parts between the `/`, the empty ones
    /// dropped. Fails where a part is not canonical.
    pub fn parse(value: &str) -> (r: Result<Self, Error>)
        ensures
            match r {
                Ok(p) => p@ == segments(value@, is_char('/')) && all_canonical(p@),
                Err(e) => e == Error::InvalidArgument && !all_canonical(
                    segments(value@, is_char('/')),
                ),
            },
    {
        let parts = split_segments(value, '/');
        let mut elements: Vec<EncString> = Vec::new();
        let n = parts.len();
        let mut i: usize = 0;
        while i < n
            invariant
                i <= n,
                n == parts.len(),
                texts(parts@) == segments(value@, is_char('/')),
                encoded_texts(elements@) == texts(parts@).take(i as int),
                all_canonical(encoded_texts(elements@)),
            decreases n - i,
        {
            match EncString::from_url_path(parts[i].clone()) {
                Ok(segment) => {
                    proof {
                        assert(encoded_texts(elements@.push(segment)) =~= encoded_texts(
                            elements@,
                        ).push(segment@));
                        assert(texts(parts@).take(i + 1) =~= texts(parts@).take(i as int).push(
                            parts@[i as int]@,
                        ));
                    }
                    elements.push(segment);
                },
                Err(e) => {
                    proof {
                        assert(texts(parts@)[i as int] == parts@[i as int]@);
                    }
                    return Err(e);
                },
            }
            i = i + 1;
        }
        proof {
            assert(texts(parts@).take(n as int) =~= texts(parts@));
        }
        Ok(EncPath(elements))
    }

    /// The path made of the given segments, root first.
    pub fn from_segments(segments: Vec<EncString>) -> (r: Self)
        ensures
            r@ == encoded_texts(segments@),
    {
        EncPath(segments)
    }

    /// Whether two paths have the same segments.
    pub fn same_as(&self, other: &EncPath) -> (r: bool)
        ensures
            r == (self@ == other@),
    {
        let n = self.0.len();
        if other.0.len() != n {
            return false;
        }
        let mut i: usize = 0;
        while i < n
            invariant
                i <= n,
                n == self.0.len(),
                n == other.0.len(),
                self@.take(i as int) == other@.take(i as int),
            decreases n - i,
        {
            if self.0[i] != other.0[i] {
                proof {
                    assert(self@[i as int] == self.0[i as int]@);
                    assert(other@[i as int] == other.0[i as int]@);
                }
                return false;
            }
            proof {
                assert(self@.take(i + 1) =~= self@.take(i as int).push(self.0[i as int]@));
                assert(other@.take(i + 1) =~= other@.take(i as int).push(other.0[i as int]@));
            }
            i = i + 1;
        }
        proof {
            assert(self@.take(n as int) =~= self@);
            assert(other@.take(n as int) =~= other@);
        }
        true
    }

    /// Whether the path begins with the segments of `prefix`.
    pub fn starts_with(&self, prefix: &EncPath) -> (r: bool)
        ensures
            r == prefix@.is_prefix_of(self@),
    {
        let n = prefix.0.len();
        if self.0.len() < n {
            return false;
        }
        let mut i: usize = 0;
        while i < n
            invariant
                i <= n,
                n == prefix.0.len(),
                n <= self.0.len(),
                self@.take(i as int) == prefix@.take(i as int),
            decreases n - i,
        {
            if self.0[i] != prefix.0[i] {
                proof {
                    assert(self@[i as int] == self.0[i as int]@);
                    assert(prefix@[i as int] == prefix.0[i as int]@);
                    assert(self@.subrange(0, prefix@.len() as int)[i as int] == self@[i as int]);
                }
                return false;
            }
            proof {
                assert(self@.take(i + 1) =~= self@.take(i as int).push(self.0[i as int]@));
                assert(prefix@.take(i + 1) =~= prefix@.take(i as int).push(
                    prefix.0[i as int]@,
                ));
            }
            i = i + 1;
        }
        proof {
            assert(prefix@.take(n as int) =~= prefix@);
            assert(self@.take(n as int) =~= self@.subrange(0, prefix@.len() as int));
        }
        true
    }

    /// The number of segments.
    pub fn len(&self) -> (r: usize)
        ensures
            r == self@.len(),
    {
        self.0.len()
    }

    /// The segment at `index`, counted from the root.
    pub fn segment(&self, index: usize) -> (r: &EncString)
        requires
            index < self@.len(),
        ensures
            r@ == self@[index as int],
    {
        &self.0[index]
    }
}

impl Clone for EncPath {
    fn clone(&self) -> (r: Self)
        ensures
            r@ == self@,
    {
        let mut elements: Vec<EncString> = Vec::new();
        let n = self.0.len();
        let mut i: usize = 0;
        while i < n
            invariant
                i <= n,
                n == self.0.len(),
                encoded_texts(elements@) == self@.take(i as int),
            decreases n - i,
        {
            let segment = self.0[i].clone();
            proof {
                assert(encoded_texts(elements@.push(segment)) =~= encoded_texts(elements@).push(
                    segment@,
                ));
                assert(self@.take(i + 1) =~= self@.take(i as int).push(self.0[i as int]@));
            }
            elements.push(segment);
            i = i + 1;
        }
        proof {
            assert(self@.take(n as int) =~= self@);
        }
        EncPath(elements)
    }
}

impl Default for EncPath {
    fn default() -> (r: Self)
        ensures
            r@ == Seq::<Seq<char>>::empty(),
    {
        let elements: Vec<EncString> = Vec::new();
        proof {
            assert(encoded_texts(elements@) =~= Seq::<Seq<char>>::empty());
        }
        EncPath(elements)
    }
}

impl From<Vec<EncString>> for EncPath {
    fn from(value: Vec<EncString>) -> (r: Self) {
        EncPath(value)
    }
}

/// The path that is made of a list of segments has these segments, root
/// first.
pub proof fn lemma_path_from_segments(value: Vec<EncString>)
    ensures
        <EncPath as FromSpec<Vec<EncString>>>::from_spec(value)@ == encoded_texts(value@),
{
}

impl FromSpecImpl<Vec<EncString>> for EncPath {
    open spec fn obeys_from_spec() -> bool {
        true
    }

    closed spec fn from_spec(value: Vec<EncString>) -> Self {
        EncPath(value)
    }
}

} // verus!
