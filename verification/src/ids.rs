//! Identifiers and small enumerations of the wordnet data model.

use vstd::prelude::*;
use crate::text::{str_eq, parse_u32_from, parse_u32_spec};
use vstd::utf8::{encode_utf8, is_char_boundary};

verus! {

/// A synset identifier such as `00001740-n`.
#[derive(Debug, PartialEq, Eq, Hash, PartialOrd, Ord)]
pub struct SynsetId(pub(crate) String);

impl View for SynsetId {
    type V = Seq<char>;

    closed spec fn view(&self) -> Seq<char> {
        self.0@
    }
}

impl Clone for SynsetId {
    fn clone(&self) -> (r: Self)
        ensures
            r == *self,
    {
        SynsetId(self.0.clone())
    }
}

impl SynsetId {
    pub fn new(s: &str) -> (r: SynsetId)
        ensures
            r@ == s@,
    {
        SynsetId(s.to_owned())
    }

    /// The identifier as an owned string.
    pub fn to_string(&self) -> (r: String)
        ensures
            r@ == self@,
    {
        self.0.clone()
    }

    pub fn as_str(&self) -> (r: &str)
        ensures
            r@ == self@,
    {
        self.0.as_str()
    }

    /// Whether two identifiers spell the same text.
    pub fn same_as(&self, other: &SynsetId) -> (r: bool)
        ensures
            r == (self@ == other@),
    {
        self.0 == other.0
    }
}

/// A sense identifier (a sense key).
#[derive(Debug, PartialEq, Eq, Hash)]
pub struct SenseId(pub(crate) String);

impl View for SenseId {
    type V = Seq<char>;

    closed spec fn view(&self) -> Seq<char> {
        self.0@
    }
}

impl Clone for SenseId {
    fn clone(&self) -> (r: Self)
        ensures
            r == *self,
    {
        SenseId(self.0.clone())
    }
}

impl SenseId {
    pub fn new(s: &str) -> (r: SenseId)
        ensures
            r@ == s@,
    {
        SenseId(s.to_owned())
    }

    pub fn to_string(&self) -> (r: String)
        ensures
            r@ == self@,
    {
        self.0.clone()
    }

    pub fn as_str(&self) -> (r: &str)
        ensures
            r@ == self@,
    {
        self.0.as_str()
    }

    /// Whether two identifiers spell the same text.
    pub fn same_as(&self, other: &SenseId) -> (r: bool)
        ensures
            r == (self@ == other@),
    {
        self.0 == other.0
    }
}

/// An Interlingual Index identifier such as `i35545`.
#[derive(Debug, PartialEq)]
pub struct ILIID(pub(crate) String);

impl View for ILIID {
    type V = Seq<char>;

    closed spec fn view(&self) -> Seq<char> {
        self.0@
    }
}

impl Clone for ILIID {
    fn clone(&self) -> (r: Self)
        ensures
            r == *self,
    {
        ILIID(self.0.clone())
    }
}

impl ILIID {
    pub fn new(s: &str) -> (r: ILIID)
        ensures
            r@ == s@,
    {
        ILIID(s.to_owned())
    }

    pub fn as_str(&self) -> (r: &str)
        ensures
            r@ == self@,
    {
        self.0.as_str()
    }
}

/// A part-of-speech key of an entry, such as `n` or `v-2` style keys where the text after
/// the first two characters numbers homographs.
#[derive(Debug, PartialEq, Eq, Hash, PartialOrd, Ord)]
pub struct PosKey(pub(crate) String);

impl View for PosKey {
    type V = Seq<char>;

    closed spec fn view(&self) -> Seq<char> {
        self.0@
    }
}

impl Clone for PosKey {
    fn clone(&self) -> (r: Self)
        ensures
            r == *self,
    {
        PosKey(self.0.clone())
    }
}

impl PosKey {
    pub fn new(s: &str) -> (r: PosKey)
        ensures
            r@ == s@,
    {
        PosKey(s.to_owned())
    }

    pub fn as_str(&self) -> (r: &str)
        ensures
            r@ == self@,
    {
        self.0.as_str()
    }

    /// The key as UTF-8 bytes.
    pub open spec fn key_bytes(&self) -> Seq<u8> {
        encode_utf8(self@)
    }

    /// The homograph number: the text after the first two bytes, read as a decimal number.
    /// Keys of fewer than three bytes have none.
    pub open spec fn entry_no_spec(&self) -> Option<u32> {
        if self.key_bytes().len() < 3 {
            None
        } else {
            parse_u32_spec(self.key_bytes().skip(2))
        }
    }

    /// The key can be cut after its second byte (always so for an ASCII key).
    pub open spec fn splits_after_two(&self) -> bool {
        self.key_bytes().len() >= 3 ==> is_char_boundary(self.key_bytes(), 2)
    }

    /// Whether the key can be cut after its second byte.
    pub fn can_split_after_two(&self) -> (r: bool)
        ensures
            r == self.splits_after_two(),
    {
        let b = self.0.as_str().as_bytes();
        if b.len() < 3 {
            true
        } else {
            self.0.as_str().is_char_boundary(2)
        }
    }

    /// The homograph number: the text after the first two bytes, read as a decimal number.
    /// Keys of fewer than three bytes have none.
    pub fn entry_no(&self) -> (r: Option<u32>)
        requires
            self.splits_after_two(),
        ensures
            r == self.entry_no_spec(),
    {
        let b = self.0.as_str().as_bytes();
        if b.len() < 3 {
            None
        } else {
            parse_u32_from(b, 2)
        }
    }
}

/// The part of speech of a synset.
#[allow(non_camel_case_types)]
#[derive(Debug, PartialEq, Eq, Clone, Copy)]
pub enum PartOfSpeech {
    n,
    v,
    a,
    r,
    s,
}

/// The one-letter code of a part of speech.
pub open spec fn pos_code(p: PartOfSpeech) -> Seq<char> {
    match p {
        PartOfSpeech::n => "n"@,
        PartOfSpeech::v => "v"@,
        PartOfSpeech::a => "a"@,
        PartOfSpeech::r => "r"@,
        PartOfSpeech::s => "s"@,
    }
}

/// The long English name of a part of speech.
pub open spec fn pos_long_name(p: PartOfSpeech) -> Seq<char> {
    match p {
        PartOfSpeech::n => "noun"@,
        PartOfSpeech::v => "verb"@,
        PartOfSpeech::a => "adjective"@,
        PartOfSpeech::s => "adjective_satellite"@,
        PartOfSpeech::r => "adverb"@,
    }
}

impl PartOfSpeech {
    pub fn str(&self) -> (r: &'static str)
        ensures
            r@ == pos_code(*self),
    {
        proof {
            reveal_strlit("n");
            reveal_strlit("v");
            reveal_strlit("a");
            reveal_strlit("r");
            reveal_strlit("s");
        }
        match *self {
            PartOfSpeech::n => "n",
            PartOfSpeech::v => "v",
            PartOfSpeech::a => "a",
            PartOfSpeech::r => "r",
            PartOfSpeech::s => "s",
        }
    }

    /// Parses a one-letter part-of-speech code.
    pub fn from_str(s: &str) -> (r: Result<PartOfSpeech, String>)
        ensures
            match r {
                Ok(p) => pos_code(p) == s@,
                Err(msg) => (forall|p: PartOfSpeech| pos_code(p) != s@) && msg@
                    == "Unknown part of speech: "@ + s@,
            },
    {
        proof {
            reveal_strlit("n");
            reveal_strlit("v");
            reveal_strlit("a");
            reveal_strlit("r");
            reveal_strlit("s");
        }
        if str_eq(s, "n") {
            Ok(PartOfSpeech::n)
        } else if str_eq(s, "v") {
            Ok(PartOfSpeech::v)
        } else if str_eq(s, "a") {
            Ok(PartOfSpeech::a)
        } else if str_eq(s, "r") {
            Ok(PartOfSpeech::r)
        } else if str_eq(s, "s") {
            Ok(PartOfSpeech::s)
        } else {
            let mut msg = String::from_str("Unknown part of speech: ");
            msg.append(s);
            Err(msg)
        }
    }

    pub fn as_long_string(&self) -> (r: &'static str)
        ensures
            r@ == pos_long_name(*self),
    {
        proof {
            reveal_strlit("noun");
            reveal_strlit("verb");
            reveal_strlit("adjective");
            reveal_strlit("adjective_satellite");
            reveal_strlit("adverb");
        }
        match *self {
            PartOfSpeech::n => "noun",
            PartOfSpeech::v => "verb",
            PartOfSpeech::a => "adjective",
            PartOfSpeech::s => "adjective_satellite",
            PartOfSpeech::r => "adverb",
        }
    }
}


/// Law of parts of speech: no two parts of speech share a code, so parsing the code of a part
/// of speech can only give that part of speech back.
pub proof fn law_pos_code_round_trip(p: PartOfSpeech)
    ensures
        forall|q: PartOfSpeech| pos_code(q) == pos_code(p) ==> q == p,
{
    reveal_strlit("n");
    reveal_strlit("v");
    reveal_strlit("a");
    reveal_strlit("r");
    reveal_strlit("s");
    assert forall|q: PartOfSpeech| pos_code(q) == pos_code(p) implies q == p by {
        assert(pos_code(q)[0] == pos_code(p)[0]);
    }
}

} // verus!
