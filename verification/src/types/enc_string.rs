use crate::error::Error;
use crate::types::percent::{
    decoded_text, encoded_text, is_canonical, is_encoded_char, is_plain, is_plain_char,
    lemma_encoded_text, lemma_self_encoded,
};
use crate::types::text::{lemma_replaced_char, replace_text, slug, slugify, with_char_replaced};
use vstd::prelude::*;
use vstd::std_specs::cmp::PartialEqSpecImpl;

verus! {

/// A text held in percent-encoded form.
///
/// Every value is canonical: it holds unreserved ASCII characters and `%`
/// only, so it can stand in a path or a query without further escaping.
#[derive(Debug)]
pub struct EncString(String);

impl View for EncString {
    type V = Seq<char>;

    /// The encoded text.
    closed spec fn view(&self) -> Seq<char> {
        self.0@
    }
}

/// `urlencoding::encode`: the percent-encoding of the UTF-8 bytes of `s`,
/// which keeps ASCII letters, digits, `-`, `.`, `_`, `~` and writes every
/// other byte as `%` and two upper-case hexadecimal digits.
#[verifier::external_body]
fn url_encode(s: &str) -> (r: String)
    ensures
        r@ == encoded_text(s@),
{
    urlencoding::encode(s).into_owned()
}

/// `urlencoding::decode`: replaces each `%` that two hexadecimal digits
/// follow by the byte they spell, leaves every other byte, and fails
/// exactly where the bytes that result are not UTF-8.
#[verifier::external_body]
fn url_decode(s: &str) -> (r: Option<String>)
    ensures
        match r {
            Some(plain) => decoded_text(s@) == Some(plain@),
            None => decoded_text(s@) is None,
        },
{
    match urlencoding::decode(s) {
        Ok(plain) => Some(plain.into_owned()),
        Err(_) => None,
    }
}

/// The ASCII transliteration that `deunicode::deunicode` gives of a text.
pub uninterp spec fn transliterated(s: Seq<char>) -> Seq<char>;

/// `deunicode::deunicode`: the ASCII transliteration of `s`, which the crate
/// reads off fixed tables, character by character.
#[verifier::external_body]
fn deunicode_text(s: &str) -> (r: String)
    ensures
        r@ == transliterated(s@),
{
    deunicode::deunicode(s)
}

impl EncString {
    #[verifier::type_invariant]
    spec fn canonical(&self) -> bool {
        is_canonical(self.0@)
    }

    /// The plain text that this encoded text stands for. Fails where the
    /// decoded bytes are not UTF-8.
    pub fn plain(&self) -> (r: Result<String, Error>)
        ensures
            match r {
                Ok(p) => decoded_text(self@) == Some(p@),
                Err(e) => e == Error::InvalidArgument && decoded_text(self@) is None,
            },
    {
        Self::decode_encoded(self.0.as_str())
    }

    /// The encoded text itself.
    pub fn encoded(&self) -> (r: &String)
        ensures
            r@ == self@,
            is_canonical(r@),
    {
        proof {
            use_type_invariant(self);
        }
        &self.0
    }

    pub fn is_empty(&self) -> (r: bool)
        ensures
            r == (self@.len() == 0),
    {
        self.0.as_str().is_empty()
    }

    /// Encodes a plain text.
    pub fn encode(string: &str) -> (r: Self)
        ensures
            r@ == encoded_text(string@),
    {
        let encoded = url_encode(string);
        proof {
            lemma_encoded_text(string@);
        }
        EncString(encoded)
    }

    /// Takes a text that is already encoded, as it comes from a URL.
    /// Fails where the text is not canonical.
    pub fn from_url_path(string: String) -> (r: Result<Self, Error>)
        ensures
            match r {
                Ok(e) => is_canonical(string@) && e@ == string@,
                Err(e) => e == Error::InvalidArgument && !is_canonical(string@),
            },
    {
        Self::new(string)
    }

    /// The URL-friendly name made of this text: the slug of the
    /// transliteration of its plain text, encoded. Fails where the plain
    /// text cannot be had.
    pub fn url_formated(&self) -> (r: Result<Self, Error>)
        ensures
            match r {
                Ok(u) => decoded_text(self@) is Some && u@ == encoded_text(
                    slug(transliterated(decoded_text(self@)->0)),
                ),
                Err(e) => e == Error::InvalidArgument && decoded_text(self@) is None,
            },
    {
        match self.plain() {
            Ok(plain) => {
                let ascii = deunicode_text(plain.as_str());
                Ok(Self::url_name_of(ascii.as_str()))
            },
            Err(e) => Err(e),
        }
    }

    /// The URL-friendly name made of a text that is already transliterated.
    pub fn url_name_of(ascii: &str) -> (r: Self)
        ensures
            r@ == encoded_text(slug(ascii@)),
    {
        let name = slugify(ascii);
        Self::encode(name.as_str())
    }

    /// Decodes an encoded text. Fails where the decoded bytes are not UTF-8.
    pub fn decode_encoded(encoded: &str) -> (r: Result<String, Error>)
        ensures
            match r {
                Ok(p) => decoded_text(encoded@) == Some(p@),
                Err(e) => e == Error::InvalidArgument && decoded_text(encoded@) is None,
            },
    {
        match url_decode(encoded) {
            Some(plain) => Ok(plain),
            None => Err(Error::InvalidArgument),
        }
    }

    /// Accepts `encoded` where it is canonical. The test substitutes a
    /// plain character for each `%` and asks whether encoding the outcome
    /// changes it.
    fn new(encoded: String) -> (r: Result<Self, Error>)
        ensures
            match r {
                Ok(e) => is_canonical(encoded@) && e@ == encoded@,
                Err(e) => e == Error::InvalidArgument && !is_canonical(encoded@),
            },
    {
        proof {
            reveal_strlit("%");
            reveal_strlit("a");
            assert("%"@ =~= seq!['%']);
            assert("a"@ =~= seq!['a']);
            lemma_replaced_char(encoded@, '%', 'a');
        }
        let encoded_test = replace_text(encoded.as_str(), "%", "a");
        let again = url_encode(encoded_test.as_str());
        proof {
            lemma_self_encoded(encoded_test@);
            lemma_sentinel(encoded@);
        }
        if again != encoded_test {
            Err(Error::InvalidArgument)
        } else {
            Ok(EncString(encoded))
        }
    }
}

/// Putting a plain character in the place of each `%` makes a plain text
/// exactly where the text was canonical.
pub proof fn lemma_sentinel(s: Seq<char>)
    ensures
        is_plain(with_char_replaced(s, '%', 'a')) <==> is_canonical(s),
{
    let t = with_char_replaced(s, '%', 'a');
    assert(is_plain_char('a'));
    assert(!is_plain_char('%'));
    if is_canonical(s) {
        assert forall|i: int| 0 <= i < t.len() implies is_plain_char(#[trigger] t[i]) by {
            assert(is_encoded_char(s[i]));
        }
    }
    if is_plain(t) {
        assert forall|i: int| 0 <= i < s.len() implies is_encoded_char(#[trigger] s[i]) by {
            assert(is_plain_char(t[i]));
        }
    }
}

impl Clone for EncString {
    fn clone(&self) -> (r: Self)
        ensures
            r@ == self@,
    {
        proof {
            use_type_invariant(self);
        }
        EncString(self.0.clone())
    }
}

impl Default for EncString {
    fn default() -> (r: Self)
        ensures
            r@ == Seq::<char>::empty(),
    {
        EncString(String::new())
    }
}

impl PartialEq for EncString {
    fn eq(&self, other: &Self) -> (r: bool) {
        self.0 == other.0
    }
}

impl PartialEqSpecImpl for EncString {
    open spec fn obeys_eq_spec() -> bool {
        true
    }

    open spec fn eq_spec(&self, other: &Self) -> bool {
        self@ == other@
    }
}

} // verus!
