use crate::error::Error;
use crate::net::data::{
    Encode, IResult, SpecResult, Wire, generate_string, parse_string_checked,
    spec_parse_string, string_bytes,
};
use vstd::prelude::*;
use vstd::string::StringExecFns;
use vstd::utf8::encode_utf8;

/// Datapacks and their versions
pub mod datapack;

verus! {

/// A namespaced identifier such as `minecraft:brand`.
#[derive(Debug, Clone, Hash, PartialEq, Eq)]
pub struct Identifier {
    pub namespace: String,
    pub value: String,
}

/// The mathematical value of an identifier: its two parts as characters.
pub struct IdentifierView {
    pub namespace: Seq<char>,
    pub value: Seq<char>,
}

impl View for Identifier {
    type V = IdentifierView;

    open spec fn view(&self) -> IdentifierView {
        IdentifierView { namespace: self.namespace@, value: self.value@ }
    }
}

/// Where an NBT text component takes its data from.
#[derive(Debug, Clone, Copy, PartialEq, Eq, Structural)]
pub enum TextComponentNbtSource {
    Block,
    Entity,
    Storage,
}

/// The score that a scoreboard text component shows.
#[derive(Debug, Clone)]
pub struct TextComponentScoreboardValue {
    pub name: String,
    pub objective: String,
}

/// `str::split_once` with a `char` pattern.
///
/// Claims that it finds nothing exactly when the delimiter does not occur,
/// and otherwise splits around the first occurrence of the delimiter.
#[verifier::external_body]
fn str_split_once(s: &str, delimiter: char) -> (r: Option<(&str, &str)>)
    ensures
        r is None <==> !s@.contains(delimiter),
        r matches Some((a, b)) ==> s@ == a@ + seq![delimiter] + b@ && !a@.contains(delimiter),
{
    s.split_once(delimiter)
}

/// The identifier a string names: the part before the first `:` is the
/// namespace and the rest is the value; without a `:`, the namespace is
/// `minecraft`.
pub open spec fn split_identifier(s: Seq<char>) -> IdentifierView {
    match s.index_of_first(':') {
        Some(i) => IdentifierView { namespace: s.take(i), value: s.skip(i + 1) },
        None => IdentifierView { namespace: "minecraft"@, value: s },
    }
}

/// The meaning of an identifier on the wire: a protocol string, split at its first `:`.
pub open spec fn spec_parse_identifier(s: Seq<u8>) -> SpecResult<IdentifierView> {
    match spec_parse_string(s) {
        SpecResult::Done(n, text) => SpecResult::Done(n, split_identifier(text)),
        other => other.stopped(),
    }
}

/// The text of an identifier: `namespace:value`.
pub open spec fn identifier_text(v: IdentifierView) -> Seq<char> {
    v.namespace + seq![':'] + v.value
}

impl Identifier {
    /// An identifier with the given namespace and value.
    pub fn new(namespace: &str, value: &str) -> (r: Self)
        ensures
            r.namespace@ == namespace@,
            r.value@ == value@,
    {
        Self { namespace: namespace.to_owned(), value: value.to_owned() }
    }

    /// The text `namespace:value`.
    pub fn to_string(&self) -> (r: String)
        ensures
            r@ == identifier_text(self@),
    {
        let mut temp = String::new();
        temp.append(self.namespace.as_str());
        temp.append(":");
        temp.append(self.value.as_str());
        proof {
            reveal_strlit(":");
        }
        temp
    }
}

impl Encode for Identifier {
    open spec fn spec_encode(v: IdentifierView) -> Seq<u8> {
        string_bytes(identifier_text(v))
    }

    fn generate(&self, out: &mut Vec<u8>) {
        let temp = self.to_string();
        generate_string(temp.as_str(), out);
    }
}

impl Wire for Identifier {
    open spec fn spec_parse(data: Seq<u8>) -> SpecResult<IdentifierView> {
        spec_parse_identifier(data)
    }

    /// Identifiers read back when the namespace has no `:` and the text fits
    /// a VarInt length.
    open spec fn encodable(v: IdentifierView) -> bool {
        &&& !v.namespace.contains(':')
        &&& encode_utf8(identifier_text(v)).len() <= i32::MAX
    }

    proof fn lemma_roundtrip(v: IdentifierView, rest: Seq<u8>) {
        let text = identifier_text(v);
        crate::net::data::lemma_string_roundtrip(text, rest);
        lemma_split_identifier(v);
    }

    fn parse(data: &[u8]) -> (r: Option<IResult<&[u8], Identifier, Error<&[u8]>>>) {
        let (data, string) = match parse_string_checked(data) {
            None => return None,
            Some(Err(e)) => return Some(Err(e)),
            Some(Ok(x)) => x,
        };
        if let Some((namespace, value)) = str_split_once(string, ':') {
            proof {
                lemma_first_colon(string@, namespace@, value@);
            }
            return Some(Ok((data, Self { namespace: namespace.to_owned(), value: value.to_owned() })));
        }
        proof {
            string@.index_of_first_ensures(':');
        }
        Some(Ok((data, Self { namespace: String::from_str("minecraft"), value: string.to_owned() })))
    }
}

/// Splitting `a + ":" + b` at its first `:` gives `a` and `b` when `a` has no `:`.
proof fn lemma_first_colon(s: Seq<char>, a: Seq<char>, b: Seq<char>)
    requires
        s == a + seq![':'] + b,
        !a.contains(':'),
    ensures
        split_identifier(s) == (IdentifierView { namespace: a, value: b }),
{
    s.index_of_first_ensures(':');
    assert(s[a.len() as int] == ':');
    let i = s.index_of_first(':').unwrap();
    if i < a.len() {
        assert(a[i] == s[i]);
    }
    assert(i == a.len());
    assert(s.take(i) =~= a);
    assert(s.skip(i + 1) =~= b);
}

/// The text of an identifier whose namespace has no `:` splits back into it.
pub proof fn lemma_split_identifier(v: IdentifierView)
    requires
        !v.namespace.contains(':'),
    ensures
        split_identifier(identifier_text(v)) == v,
{
    lemma_first_colon(identifier_text(v), v.namespace, v.value);
}

} // verus!
