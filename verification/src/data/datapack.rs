use crate::data::{Identifier, IdentifierView};
use crate::error::Error;
use crate::net::data::{
    Encode, IResult, SpecResult, Wire, generate_string, parse_string_checked, spec_parse_string,
    string_bytes,
};
use vstd::prelude::*;
use vstd::utf8::encode_utf8;

verus! {

/// A datapack: its identifier, its version and its namespaces.
pub struct Datapack {
    identifier: Identifier,
    version: String,
    namespaces: Vec<(Identifier, DatapackNamespace)>,
}

/// The contents of one namespace of a datapack.
pub struct DatapackNamespace {}

/// A datapack as a client announces it: identifier and version.
#[derive(Debug, Clone, Hash, PartialEq, Eq)]
pub struct DatapackVersion {
    identifier: Identifier,
    version: String,
}

/// The mathematical value of a datapack version.
pub struct DatapackVersionView {
    pub identifier: IdentifierView,
    pub version: Seq<char>,
}

impl View for DatapackVersion {
    type V = DatapackVersionView;

    closed spec fn view(&self) -> DatapackVersionView {
        DatapackVersionView { identifier: self.identifier@, version: self.version@ }
    }
}

impl Datapack {
    /// The identifiers of the datapack's namespaces, in order.
    pub closed spec fn namespace_ids(&self) -> Seq<IdentifierView> {
        self.namespaces@.map_values(|e: (Identifier, DatapackNamespace)| e.0@)
    }

    /// No namespace occurs twice.
    pub closed spec fn wf(&self) -> bool {
        self.namespace_ids().no_duplicates()
    }

    pub closed spec fn identifier_view(&self) -> IdentifierView {
        self.identifier@
    }

    pub closed spec fn version_view(&self) -> Seq<char> {
        self.version@
    }

    /// The datapack that a directory describes whose `data/` folder holds
    /// no namespace directory that is read: no namespaces yet.
    pub fn from_dir(identifier: Identifier, version: String) -> (r: Self)
        ensures
            r.wf(),
            r.namespace_ids() == Seq::<IdentifierView>::empty(),
            r.identifier_view() == identifier@,
            r.version_view() == version@,
    {
        let r = Self { identifier, version, namespaces: Vec::new() };
        assert(r.namespace_ids() =~= Seq::<IdentifierView>::empty());
        r
    }
}

/// The bytes of a datapack version: namespace, value and version as strings.
pub open spec fn datapack_version_bytes(v: DatapackVersionView) -> Seq<u8> {
    string_bytes(v.identifier.namespace) + string_bytes(v.identifier.value) + string_bytes(
        v.version,
    )
}

/// The meaning of a datapack version on the wire: three strings.
pub open spec fn spec_parse_datapack_version(s: Seq<u8>) -> SpecResult<DatapackVersionView> {
    match spec_parse_string(s) {
        SpecResult::Done(a, namespace) => match spec_parse_string(s.skip(a as int)) {
            SpecResult::Done(b, value) => match spec_parse_string(s.skip((a + b) as int)) {
                SpecResult::Done(c, version) => SpecResult::Done(
                    a + b + c,
                    DatapackVersionView {
                        identifier: IdentifierView { namespace, value },
                        version,
                    },
                ),
                other => other.stopped(),
            },
            other => other.stopped(),
        },
        other => other.stopped(),
    }
}

impl DatapackVersion {
    /// A datapack version with the given identifier and version.
    pub fn new(id: Identifier, ver: &str) -> (r: Self)
        ensures
            r@ == (DatapackVersionView { identifier: id@, version: ver@ }),
    {
        Self { identifier: id, version: ver.to_owned() }
    }

    /// Whether both name the same datapack at the same version.
    pub fn same_as(&self, other: &DatapackVersion) -> (r: bool)
        ensures
            r == (self@ == other@),
    {
        let r = self.identifier.namespace == other.identifier.namespace
            && self.identifier.value == other.identifier.value && self.version == other.version;
        proof {
            if r {
                assert(self@.identifier == other@.identifier);
            }
        }
        r
    }
}

impl Encode for DatapackVersion {
    open spec fn spec_encode(v: DatapackVersionView) -> Seq<u8> {
        datapack_version_bytes(v)
    }

    fn generate(&self, out: &mut Vec<u8>) {
        generate_string(self.identifier.namespace.as_str(), out);
        generate_string(self.identifier.value.as_str(), out);
        generate_string(self.version.as_str(), out);
        assert(out@ =~= old(out)@ + datapack_version_bytes(self@));
    }
}

impl Wire for DatapackVersion {
    open spec fn spec_parse(data: Seq<u8>) -> SpecResult<DatapackVersionView> {
        spec_parse_datapack_version(data)
    }

    /// Datapack versions read back when each string fits a VarInt length.
    open spec fn encodable(v: DatapackVersionView) -> bool {
        &&& encode_utf8(v.identifier.namespace).len() <= i32::MAX
        &&& encode_utf8(v.identifier.value).len() <= i32::MAX
        &&& encode_utf8(v.version).len() <= i32::MAX
    }

    proof fn lemma_roundtrip(v: DatapackVersionView, rest: Seq<u8>) {
        let a = string_bytes(v.identifier.namespace);
        let b = string_bytes(v.identifier.value);
        let c = string_bytes(v.version);
        let s = datapack_version_bytes(v) + rest;
        assert(s =~= a + (b + (c + rest)));
        crate::net::data::lemma_string_roundtrip(v.identifier.namespace, b + (c + rest));
        assert(s.skip(a.len() as int) =~= b + (c + rest));
        crate::net::data::lemma_string_roundtrip(v.identifier.value, c + rest);
        assert(s.skip((a.len() + b.len()) as int) =~= c + rest);
        crate::net::data::lemma_string_roundtrip(v.version, rest);
    }

    fn parse(data: &[u8]) -> (r: Option<IResult<&[u8], DatapackVersion, Error<&[u8]>>>) {
        let ghost s = data@;
        let (data, namespace) = match parse_string_checked(data) {
            None => return None,
            Some(Err(e)) => return Some(Err(e)),
            Some(Ok(x)) => x,
        };
        let ghost a = (s.len() - data@.len()) as int;
        let (data, value) = match parse_string_checked(data) {
            None => return None,
            Some(Err(e)) => return Some(Err(e)),
            Some(Ok(x)) => x,
        };
        let ghost b = (s.len() - a - data@.len()) as int;
        proof {
            crate::net::data::lemma_skip_skip(s, a, b);
        }
        let (data, version) = match parse_string_checked(data) {
            None => return None,
            Some(Err(e)) => return Some(Err(e)),
            Some(Ok(x)) => x,
        };
        proof {
            let c = (s.len() - a - b - data@.len()) as int;
            crate::net::data::lemma_skip_skip(s, a + b, c);
        }
        Some(Ok((data, Self::new(Identifier::new(namespace, value), version))))
    }
}

} // verus!
