//! Identifiers of registry entries: the `{did}/resource/...` and
//! `{did}/resources/{id}` URI forms and their parts.
use vstd::prelude::*;

use crate::errors::DlrError;
use crate::identity::{
    did_identity_as_full_did, full_did_into_did_identity, spec_full_did, spec_parse_identity,
    DidIdentity,
};
use crate::query::{find_char_in, index_of_char_in};
use crate::resource::DIDLinkedResourceType;
use crate::strutil::str_eq;

verus! {

/// Where the first occurrence of `pat` starts in `s`, at or after `from`;
/// `s.len()` if there is none (an empty pattern counts as absent).
pub open spec fn first_match_index(s: Seq<char>, pat: Seq<char>, from: int) -> int
    decreases s.len() - from,
{
    if from < 0 || pat.len() == 0 || from + pat.len() > s.len() {
        s.len() as int
    } else if s.subrange(from, from + pat.len() as int) == pat {
        from
    } else {
        first_match_index(s, pat, from + 1)
    }
}

/// The DID portion of a resource URI: everything before the first
/// `/resources` (the whole string when it has none).
pub open spec fn spec_extract_did(s: Seq<char>) -> Seq<char> {
    s.subrange(0, first_match_index(s, "/resources"@, 0))
}

/// Recovers the DID of a resource URI of the form
/// `{did}/resources/{resource_id}` by truncating at `/resources`.
pub fn extract_did_of_dlr_resource_uri(resource_uri: &str) -> (r: String)
    ensures
        r@ == spec_extract_did(resource_uri@),
{
    let n = resource_uri.unicode_len();
    let pat = "/resources";
    proof {
        reveal_strlit("/resources");
    }
    let mut i: usize = 0;
    while n - i >= 10
        invariant
            i <= n,
            n == resource_uri@.len(),
            pat@ == "/resources"@ && pat@.len() == 10,
            first_match_index(resource_uri@, "/resources"@, 0) == first_match_index(
                resource_uri@,
                "/resources"@,
                i as int,
            ),
        decreases n - i,
    {
        let seg = resource_uri.substring_char(i, i + 10);
        if str_eq(seg, pat) {
            let prefix = resource_uri.substring_char(0, i);
            return String::from_str(prefix);
        }
        i = i + 1;
    }
    proof {
        assert(first_match_index(resource_uri@, "/resources"@, i as int) == n);
        assert(resource_uri@.subrange(0, n as int) =~= resource_uri@);
    }
    String::from_str(resource_uri)
}

/// The first match of a pattern lies exactly at `at` when the pattern
/// occurs there and nothing before `at` begins an occurrence.
proof fn lemma_first_match_at(s: Seq<char>, pat: Seq<char>, from: int, at: int)
    requires
        0 <= from <= at,
        pat.len() > 0,
        at + pat.len() <= s.len(),
        s.subrange(at, at + pat.len() as int) == pat,
        forall|p: int| from <= p < at ==> s[p] != pat[0],
    ensures
        first_match_index(s, pat, from) == at,
    decreases at - from,
{
    if from == at {
    } else {
        assert(s.subrange(from, from + pat.len() as int)[0] == s[from]);
        assert(s[from] != pat[0]);
        assert(s.subrange(from, from + pat.len() as int) != pat);
        lemma_first_match_at(s, pat, from + 1, at);
    }
}

/// Truncating a resource URI at `/resources` recovers the DID it was built
/// from, for every DID string free of `/` (as the `did:` form is) and
/// every resource identifier.
pub proof fn lemma_resource_uri_did_extraction(did: Seq<char>, resource_id: u64)
    requires
        forall|i: int| 0 <= i < did.len() ==> did[i] != '/',
    ensures
        spec_extract_did(crate::resource::spec_resource_uri(did, resource_id)) == did,
{
    reveal_strlit("/resources");
    reveal_strlit("/resources/");
    let pat = "/resources"@;
    let full = crate::resource::spec_resource_uri(did, resource_id);
    assert(full.subrange(did.len() as int, did.len() as int + 10) =~= pat);
    assert forall|p: int| 0 <= p < did.len() implies full[p] != pat[0] by {
        assert(full[p] == did[p]);
    }
    lemma_first_match_at(full, pat, 0, did.len() as int);
    assert(full.subrange(0, did.len() as int) =~= did);
}

/// An identifier of an immutable resource stored in the registry: the
/// authoring identity plus a free-form path.
#[derive(Debug, Clone, PartialEq, Eq)]
pub struct DIDResourceId {
    pub did_identity: DidIdentity,
    pub resource_path: String,
}

/// The mathematical shape of a split resource identifier.
#[verifier::ext_equal]
pub ghost struct DIDResourceIdView {
    pub did_identity: Seq<u8>,
    pub resource_path: Seq<char>,
}

impl View for DIDResourceId {
    type V = DIDResourceIdView;

    open spec fn view(&self) -> DIDResourceIdView {
        DIDResourceIdView {
            did_identity: self.did_identity@,
            resource_path: self.resource_path@,
        }
    }
}

/// Splits `{did}/{path}` at the first slash and reads the DID's identity;
/// `None` without a slash or when the DID holds no identity.
pub open spec fn spec_parse_resource_id(s: Seq<char>) -> Option<DIDResourceIdView> {
    let slash = index_of_char_in(s, '/', 0, s.len() as int);
    if slash == s.len() {
        None
    } else {
        match spec_parse_identity(s.subrange(0, slash)) {
            None => None,
            Some(identity) => Some(
                DIDResourceIdView {
                    did_identity: identity,
                    resource_path: s.subrange(slash + 1, s.len() as int),
                },
            ),
        }
    }
}

impl DIDResourceId {
    /// Splits a full resource identifier `{did}/{path}` into its parts;
    /// fails without a `/` or when the DID holds no identity.
    pub fn from_id(id: String) -> (r: Result<DIDResourceId, DlrError>)
        ensures
            match r {
                Ok(d) => spec_parse_resource_id(id@) == Some(d@),
                Err(e) => e == DlrError::ParseError && spec_parse_resource_id(id@) is None,
            },
    {
        let s = id.as_str();
        let n = s.unicode_len();
        let slash = find_char_in(s, '/', 0, n);
        if slash == n {
            return Err(DlrError::ParseError);
        }
        let did_part = s.substring_char(0, slash);
        let did_identity = match full_did_into_did_identity(did_part) {
            Ok(idv) => idv,
            Err(_) => {
                return Err(DlrError::ParseError);
            },
        };
        let resource_path = String::from_str(s.substring_char(slash + 1, n));
        Ok(DIDResourceId { did_identity, resource_path })
    }

    /// The full DID string of the authoring identity.
    pub fn author_did(&self, sub_method: &str) -> (r: String)
        ensures
            r@ == spec_full_did(self.did_identity@, sub_method@),
    {
        did_identity_as_full_did(&self.did_identity, sub_method)
    }

    /// The full resource identifier, `{did}/{path}`.
    pub fn to_id(&self, sub_method: &str) -> (r: String)
        ensures
            r@ == spec_full_did(self.did_identity@, sub_method@) + "/"@ + self.resource_path@,
    {
        let mut out = self.author_did(sub_method);
        out.append("/");
        out.append(self.resource_path.as_str());
        out
    }
}

/// An identifier of a resource (immutable or mutable) stored in the
/// registry, in the form `{did}/resource/{immutable|mutable}/{name}`.
#[derive(Debug, Clone, PartialEq, Eq)]
pub struct DIDLinkedResourceId {
    pub did_identity: DidIdentity,
    pub resource_type: DIDLinkedResourceType,
    pub resource_name: String,
}

/// The mathematical shape of a split linked-resource identifier.
#[verifier::ext_equal]
pub ghost struct DIDLinkedResourceIdView {
    pub did_identity: Seq<u8>,
    pub resource_type: DIDLinkedResourceType,
    pub resource_name: Seq<char>,
}

impl View for DIDLinkedResourceId {
    type V = DIDLinkedResourceIdView;

    open spec fn view(&self) -> DIDLinkedResourceIdView {
        DIDLinkedResourceIdView {
            did_identity: self.did_identity@,
            resource_type: self.resource_type,
            resource_name: self.resource_name@,
        }
    }
}

/// The path prefix naming a kind of registry entry.
pub open spec fn spec_kind_prefix(kind: DIDLinkedResourceType) -> Seq<char> {
    match kind {
        DIDLinkedResourceType::Immutable => "resource/immutable/"@,
        DIDLinkedResourceType::Mutable => "resource/mutable/"@,
    }
}

/// Splits `{did}/resource/{immutable|mutable}/{name}` into its parts;
/// `None` without a slash, without a recognized kind prefix, or when the
/// DID holds no identity.
pub open spec fn spec_parse_linked_resource_id(s: Seq<char>) -> Option<DIDLinkedResourceIdView> {
    let slash = index_of_char_in(s, '/', 0, s.len() as int);
    if slash == s.len() {
        None
    } else {
        let path = s.subrange(slash + 1, s.len() as int);
        let kind: Option<DIDLinkedResourceType> = if path.len() >= 19 && path.subrange(0, 19)
            == "resource/immutable/"@ {
            Some(DIDLinkedResourceType::Immutable)
        } else if path.len() >= 17 && path.subrange(0, 17) == "resource/mutable/"@ {
            Some(DIDLinkedResourceType::Mutable)
        } else {
            None
        };
        match kind {
            None => None,
            Some(kind) => match spec_parse_identity(s.subrange(0, slash)) {
                None => None,
                Some(identity) => Some(
                    DIDLinkedResourceIdView {
                        did_identity: identity,
                        resource_type: kind,
                        resource_name: path.subrange(
                            spec_kind_prefix(kind).len() as int,
                            path.len() as int,
                        ),
                    },
                ),
            },
        }
    }
}

impl DIDLinkedResourceId {
    /// Splits a full resource identifier into its parts: the DID, the
    /// immutable-or-mutable kind, and the resource name.
    pub fn from_full_id(id: String) -> (r: Result<DIDLinkedResourceId, DlrError>)
        ensures
            match r {
                Ok(d) => spec_parse_linked_resource_id(id@) == Some(d@),
                Err(e) => e == DlrError::ParseError && spec_parse_linked_resource_id(
                    id@,
                ) is None,
            },
    {
        let s = id.as_str();
        let n = s.unicode_len();
        let slash = find_char_in(s, '/', 0, n);
        if slash == n {
            return Err(DlrError::ParseError);
        }
        let ghost path = s@.subrange(slash + 1, n as int);
        proof {
            reveal_strlit("resource/immutable/");
            reveal_strlit("resource/mutable/");
        }
        let (resource_type, name_start): (DIDLinkedResourceType, usize) = if n - (slash + 1) >= 19
            && str_eq(s.substring_char(slash + 1, slash + 1 + 19), "resource/immutable/") {
            proof {
                assert(path.subrange(0, 19) =~= s@.subrange(slash + 1, slash + 1 + 19));
            }
            (DIDLinkedResourceType::Immutable, slash + 1 + 19)
        } else if n - (slash + 1) >= 17 && str_eq(
            s.substring_char(slash + 1, slash + 1 + 17),
            "resource/mutable/",
        ) {
            proof {
                assert(path.subrange(0, 17) =~= s@.subrange(slash + 1, slash + 1 + 17));
                if path.len() >= 19 {
                    assert(path.subrange(0, 19)[9] == path[9]);
                    assert("resource/immutable/"@[9] == 'i' && path[9] == 'm');
                }
            }
            (DIDLinkedResourceType::Mutable, slash + 1 + 17)
        } else {
            proof {
                if path.len() >= 19 && path.subrange(0, 19) == "resource/immutable/"@ {
                    assert(path.subrange(0, 19) =~= s@.subrange(slash + 1, slash + 1 + 19));
                }
                if path.len() >= 17 && path.subrange(0, 17) == "resource/mutable/"@ {
                    assert(path.subrange(0, 17) =~= s@.subrange(slash + 1, slash + 1 + 17));
                }
            }
            return Err(DlrError::ParseError);
        };
        let did_part = s.substring_char(0, slash);
        let did_identity = match full_did_into_did_identity(did_part) {
            Ok(idv) => idv,
            Err(_) => {
                return Err(DlrError::ParseError);
            },
        };
        let resource_name = String::from_str(s.substring_char(name_start, n));
        let d = DIDLinkedResourceId { did_identity, resource_type, resource_name };
        proof {
            assert(d.resource_name@ =~= path.subrange(
                spec_kind_prefix(d.resource_type).len() as int,
                path.len() as int,
            ));
        }
        Ok(d)
    }

    /// The full DID string of the authoring identity.
    pub fn author_did(&self, sub_method: &str) -> (r: String)
        ensures
            r@ == spec_full_did(self.did_identity@, sub_method@),
    {
        did_identity_as_full_did(&self.did_identity, sub_method)
    }

    /// The full resource identifier,
    /// `{did}/resource/{immutable|mutable}/{name}`.
    pub fn to_full_id(&self, sub_method: &str) -> (r: String)
        ensures
            r@ == spec_full_did(self.did_identity@, sub_method@) + "/"@ + spec_kind_prefix(
                self.resource_type,
            ) + self.resource_name@,
    {
        let mut out = self.author_did(sub_method);
        out.append("/");
        match self.resource_type {
            DIDLinkedResourceType::Immutable => out.append("resource/immutable/"),
            DIDLinkedResourceType::Mutable => out.append("resource/mutable/"),
        }
        out.append(self.resource_name.as_str());
        proof {
            reveal_strlit("resource/immutable/");
            reveal_strlit("resource/mutable/");
        }
        out
    }
}

} // verus!
