//! Ledger identifiers: qualified and short DID values, method names, and
//! their validation.
//!
//! A fully qualified identifier has the shape `did:<method>:<entity>`, where
//! the method is a non-empty run of lower-case letters and digits. A short
//! (unqualified) identifier is the bare entity, which must decode from
//! base-58 to exactly 16 or 32 bytes.

use vstd::prelude::*;
use crate::base58::{b58_all_valid, b58_decoded, from_base58};
use crate::validation::ValidationError;

verus! {

/// Whether `c` may appear in a DID method name: a lower-case letter or digit.
pub open spec fn is_method_char(c: char) -> bool {
    ('a' as u32 <= c as u32 && c as u32 <= 'z' as u32) || ('0' as u32 <= c as u32 && c as u32
        <= '9' as u32)
}

/// Position of the first `':'` in `s` at or after `from`, or `-1` if none.
pub open spec fn colon_from(s: Seq<char>, from: int) -> int
    decreases s.len() - from,
{
    if from >= s.len() || from < 0 {
        -1
    } else if s[from] == ':' {
        from
    } else {
        colon_from(s, from + 1)
    }
}

/// Whether `s` is a fully qualified identifier `did:<method>:<entity>`.
pub open spec fn spec_is_fully_qualified(s: Seq<char>) -> bool {
    let q = colon_from(s, 4);
    &&& s.len() > 4
    &&& s.subrange(0, 4) == "did:"@
    &&& q > 4
    &&& forall|i: int| 4 <= i < q ==> is_method_char(s[i])
}

/// The method segment of a fully qualified identifier.
pub open spec fn spec_method(s: Seq<char>) -> Seq<char> {
    s.subrange(4, colon_from(s, 4))
}

/// The short form: the entity segment if `s` is fully qualified, else `s`.
pub open spec fn spec_unqualified(s: Seq<char>) -> Seq<char> {
    if spec_is_fully_qualified(s) {
        s.subrange(colon_from(s, 4) + 1, s.len() as int)
    } else {
        s
    }
}

/// An identifier combined from an optional method and an entity part.
pub open spec fn spec_combine(method: Option<Seq<char>>, entity: Seq<char>) -> Seq<char> {
    match method {
        Some(m) => "did:"@ + m + seq![':'] + entity,
        None => entity,
    }
}

/// Whether `s` is a well-formed method name: non-empty, lower-case letters
/// and digits only.
pub open spec fn spec_valid_method_name(s: Seq<char>) -> bool {
    s.len() > 0 && forall|i: int| 0 <= i < s.len() ==> is_method_char(s[i])
}

/// A wrapper providing validation for DID methods.
#[derive(Debug, Clone, PartialEq, Eq, Hash)]
pub struct DidMethod(pub String);

impl DidMethod {
    /// Rejects a method name unless it is a non-empty run of lower-case
    /// letters and digits.
    pub fn validate(&self) -> (r: Result<(), ValidationError>)
        ensures
            r is Ok <==> spec_valid_method_name(self.0@),
            r is Err ==> r == Err::<(), ValidationError>(ValidationError::InvalidFormat),
    {
        let s = self.0.as_str();
        let len = s.unicode_len();
        if len == 0 {
            return Err(ValidationError::InvalidFormat);
        }
        let mut i: usize = 0;
        while i < len
            invariant
                i <= len,
                len == s@.len(),
                s@ == self.0@,
                forall|j: int| 0 <= j < i ==> is_method_char(s@[j]),
            decreases len - i,
        {
            let c = s.get_char(i) as u32;
            if !((97 <= c && c <= 122) || (48 <= c && c <= 57)) {
                return Err(ValidationError::InvalidFormat);
            }
            i += 1;
        }
        Ok(())
    }
}

/// A qualifiable DID value, optionally carrying a `did:<method>:` prefix.
#[derive(Debug, Clone, PartialEq, Eq, Hash)]
pub struct DidValue(pub String);

/// A short DID with no prefix or method.
#[derive(Debug, Clone, PartialEq, Eq, Hash)]
pub struct ShortDidValue(pub String);

/// Position of the first `':'` in `s` at or after `from`, if any.
fn find_colon(s: &str, from: usize) -> (r: Option<usize>)
    requires
        from <= s@.len(),
    ensures
        r matches Some(i) ==> colon_from(s@, from as int) == i && from <= i < s@.len(),
        r is None ==> colon_from(s@, from as int) == -1,
{
    let len = s.unicode_len();
    let mut i: usize = from;
    while i < len
        invariant
            from <= i <= len,
            len == s@.len(),
            colon_from(s@, from as int) == colon_from(s@, i as int),
        decreases len - i,
    {
        if s.get_char(i) == ':' {
            return Some(i);
        }
        i += 1;
    }
    None
}

/// Whether `s` has the fully qualified shape `did:<method>:<entity>`.
fn is_fully_qualified_str(s: &str) -> (r: bool)
    ensures
        r == spec_is_fully_qualified(s@),
{
    proof {
        reveal_strlit("did:");
    }
    let len = s.unicode_len();
    if len <= 4 {
        return false;
    }
    if s.get_char(0) != 'd' {
        proof {
            assert(s@.subrange(0, 4)[0] != "did:"@[0]);
        }
        return false;
    }
    if s.get_char(1) != 'i' {
        proof {
            assert(s@.subrange(0, 4)[1] != "did:"@[1]);
        }
        return false;
    }
    if s.get_char(2) != 'd' {
        proof {
            assert(s@.subrange(0, 4)[2] != "did:"@[2]);
        }
        return false;
    }
    if s.get_char(3) != ':' {
        proof {
            assert(s@.subrange(0, 4)[3] != "did:"@[3]);
        }
        return false;
    }
    proof {
        assert(s@.subrange(0, 4) =~= "did:"@);
    }
    match find_colon(s, 4) {
        None => false,
        Some(q) => {
            if q <= 4 {
                return false;
            }
            let mut i: usize = 4;
            while i < q
                invariant
                    4 <= i <= q,
                    q < s@.len(),
                    colon_from(s@, 4) == q,
                    forall|j: int| 4 <= j < i ==> is_method_char(s@[j]),
                decreases q - i,
            {
                let c = s.get_char(i) as u32;
                if !((97 <= c && c <= 122) || (48 <= c && c <= 57)) {
                    return false;
                }
                i += 1;
            }
            true
        },
    }
}

/// Builds `did:<method>:<entity>` from the parts, or returns the bare entity
/// when no method is given.
fn combine(method: Option<&str>, entity: &str) -> (r: String)
    ensures
        method matches Some(m) ==> r@ == spec_combine(Some(m@), entity@),
        method is None ==> r@ == entity@,
{
    match method {
        Some(m) => {
            proof {
                reveal_strlit(":");
                assert(":"@ =~= seq![':']);
            }
            let mut s = String::from_str("did:");
            s.append(m);
            s.append(":");
            s.append(entity);
            s
        },
        None => String::from_str(entity),
    }
}

impl DidValue {
    /// A DID from an entity and an optional method.
    pub fn new(did: &str, method: Option<&str>) -> (r: DidValue)
        ensures
            method matches Some(m) ==> r.0@ == spec_combine(Some(m@), did@),
            method is None ==> r.0@ == did@,
    {
        DidValue(combine(method, did))
    }

    /// The short form of this DID: the entity without prefix and method.
    pub fn to_short(&self) -> (r: ShortDidValue)
        ensures
            r.0@ == spec_unqualified(self.0@),
    {
        let s = self.0.as_str();
        if is_fully_qualified_str(s) {
            let q = match find_colon(s, 4) {
                Some(q) => q,
                None => unreached(),
            };
            let len = s.unicode_len();
            let ent = s.substring_char(q + 1, len);
            ShortDidValue(ent.to_owned())
        } else {
            ShortDidValue(self.0.clone())
        }
    }

    /// Whether this DID may be abbreviated to its short form: true for an
    /// unqualified DID and for the `sov` method family, false otherwise.
    pub fn is_abbreviatable(&self) -> (r: bool)
        ensures
            r == if spec_is_fully_qualified(self.0@) {
                (spec_method(self.0@).len() >= 3 && spec_method(self.0@).subrange(0, 3) == "sov"@)
            } else {
                true
            },
    {
        proof {
            reveal_strlit("sov");
        }
        let s = self.0.as_str();
        if !is_fully_qualified_str(s) {
            return true;
        }
        let q = match find_colon(s, 4) {
            Some(q) => q,
            None => unreached(),
        };
        if q < 7 {
            proof {
                assert(spec_method(self.0@).len() == q - 4);
            }
            return false;
        }
        let r = s.get_char(4) == 's' && s.get_char(5) == 'o' && s.get_char(6) == 'v';
        proof {
            assert(spec_method(self.0@).len() >= 3);
            assert(spec_method(self.0@).subrange(0, 3)[0] == s@[4]);
            assert(spec_method(self.0@).subrange(0, 3)[1] == s@[5]);
            assert(spec_method(self.0@).subrange(0, 3)[2] == s@[6]);
            if s@[4] == 's' && s@[5] == 'o' && s@[6] == 'v' {
                assert(spec_method(self.0@).subrange(0, 3) =~= "sov"@);
            } else {
                assert(spec_method(self.0@).subrange(0, 3) != "sov"@);
            }
        }
        r
    }

    /// Accepts a fully qualified DID as-is; an unqualified one must decode
    /// from base-58 to exactly 16 or 32 bytes.
    pub fn validate(&self) -> (r: Result<(), ValidationError>)
        ensures
            spec_is_fully_qualified(self.0@) ==> r is Ok,
            !spec_is_fully_qualified(self.0@) ==> (r is Ok <==> (b58_all_valid(self.0@) && (
            b58_decoded(self.0@).len() == 16 || b58_decoded(self.0@).len() == 32))),
            !spec_is_fully_qualified(self.0@) && !b58_all_valid(self.0@) ==> r == Err::<
                (),
                ValidationError,
            >(ValidationError::InvalidFormat),
            !spec_is_fully_qualified(self.0@) && b58_all_valid(self.0@) && !(b58_decoded(
                self.0@,
            ).len() == 16 || b58_decoded(self.0@).len() == 32) ==> r == Err::<
                (),
                ValidationError,
            >(ValidationError::InvalidLength),
    {
        if is_fully_qualified_str(self.0.as_str()) {
            Ok(())
        } else {
            match from_base58(self.0.as_str()) {
                Err(e) => Err(e),
                Ok(bytes) => {
                    if bytes.len() != 16 && bytes.len() != 32 {
                        Err(ValidationError::InvalidLength)
                    } else {
                        Ok(())
                    }
                },
            }
        }
    }
}

impl ShortDidValue {
    /// Convert a short DID value to a qualified DID.
    pub fn qualify(&self, method: Option<String>) -> (r: DidValue)
        ensures
            method matches Some(m) ==> r.0@ == spec_combine(Some(m@), self.0@),
            method is None ==> r.0@ == self.0@,
    {
        match method {
            Some(m) => DidValue(combine(Some(m.as_str()), self.0.as_str())),
            None => DidValue(combine(None, self.0.as_str())),
        }
    }

    /// A short DID must decode from base-58 to exactly 16 or 32 bytes.
    pub fn validate(&self) -> (r: Result<(), ValidationError>)
        ensures
            r is Ok <==> (b58_all_valid(self.0@) && (b58_decoded(self.0@).len() == 16
                || b58_decoded(self.0@).len() == 32)),
            !b58_all_valid(self.0@) ==> r == Err::<(), ValidationError>(
                ValidationError::InvalidFormat,
            ),
            b58_all_valid(self.0@) && !(b58_decoded(self.0@).len() == 16 || b58_decoded(
                self.0@,
            ).len() == 32) ==> r == Err::<(), ValidationError>(ValidationError::InvalidLength),
    {
        match from_base58(self.0.as_str()) {
            Err(e) => Err(e),
            Ok(bytes) => {
                if bytes.len() != 16 && bytes.len() != 32 {
                    Err(ValidationError::InvalidLength)
                } else {
                    Ok(())
                }
            },
        }
    }
}

impl From<String> for ShortDidValue {
    fn from(val: String) -> (r: ShortDidValue) {
        ShortDidValue(val)
    }
}

impl vstd::std_specs::convert::FromSpecImpl<String> for ShortDidValue {
    open spec fn obeys_from_spec() -> bool {
        true
    }

    open spec fn from_spec(v: String) -> ShortDidValue {
        ShortDidValue(v)
    }
}

/// The default origin DID used when submitting ledger read requests.
pub fn default_libindy_did() -> (r: DidValue)
    ensures
        r.0@ == "LibindyDid111111111111"@,
{
    DidValue(String::from_str("LibindyDid111111111111"))
}

} // verus!
