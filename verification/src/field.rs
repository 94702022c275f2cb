//! The seven registered claims of RFC 7519 and the keys they have on the wire.
use crate::order::str_equal;
use vstd::prelude::*;

verus! {

/// A registered claim.
#[derive(Debug, Clone, Copy, PartialEq, Eq, Structural)]
pub enum Field {
    Issuer,
    Subject,
    Audience,
    Expiration,
    NotBefore,
    IssuedAt,
    JsonWebTokenId,
}

impl Field {
    /// The key of the claim in the JSON object.
    pub open spec fn name(self) -> Seq<char> {
        match self {
            Field::Issuer => "iss"@,
            Field::Subject => "sub"@,
            Field::Audience => "aud"@,
            Field::Expiration => "exp"@,
            Field::NotBefore => "nbf"@,
            Field::IssuedAt => "iat"@,
            Field::JsonWebTokenId => "jti"@,
        }
    }

    /// The key of the claim in the JSON object.
    pub fn wire_name(&self) -> (out: &'static str)
        ensures
            out@ == self.name(),
    {
        match self {
            Field::Issuer => "iss",
            Field::Subject => "sub",
            Field::Audience => "aud",
            Field::Expiration => "exp",
            Field::NotBefore => "nbf",
            Field::IssuedAt => "iat",
            Field::JsonWebTokenId => "jti",
        }
    }

    /// The registered claim whose key is `key`, if it is one. Keys match
    /// exactly: another case or a space makes another key.
    pub fn named(key: &str) -> (out: Option<Field>)
        ensures
            out == field_named(key@),
    {
        if str_equal(key, "iss") {
            Some(Field::Issuer)
        } else if str_equal(key, "sub") {
            Some(Field::Subject)
        } else if str_equal(key, "aud") {
            Some(Field::Audience)
        } else if str_equal(key, "exp") {
            Some(Field::Expiration)
        } else if str_equal(key, "nbf") {
            Some(Field::NotBefore)
        } else if str_equal(key, "iat") {
            Some(Field::IssuedAt)
        } else if str_equal(key, "jti") {
            Some(Field::JsonWebTokenId)
        } else {
            None
        }
    }
}

/// The registered claim whose key is `key`, if it is one.
pub open spec fn field_named(key: Seq<char>) -> Option<Field> {
    if key == "iss"@ {
        Some(Field::Issuer)
    } else if key == "sub"@ {
        Some(Field::Subject)
    } else if key == "aud"@ {
        Some(Field::Audience)
    } else if key == "exp"@ {
        Some(Field::Expiration)
    } else if key == "nbf"@ {
        Some(Field::NotBefore)
    } else if key == "iat"@ {
        Some(Field::IssuedAt)
    } else if key == "jti"@ {
        Some(Field::JsonWebTokenId)
    } else {
        None
    }
}

/// The keys of the registered claims.
pub open spec fn registered_names() -> Set<Seq<char>> {
    Set::new(|key: Seq<char>| field_named(key) is Some)
}

/// The seven keys, letter by letter.
pub proof fn lemma_names_spelled()
    ensures
        "iss"@ == seq!['i', 's', 's'],
        "sub"@ == seq!['s', 'u', 'b'],
        "aud"@ == seq!['a', 'u', 'd'],
        "exp"@ == seq!['e', 'x', 'p'],
        "nbf"@ == seq!['n', 'b', 'f'],
        "iat"@ == seq!['i', 'a', 't'],
        "jti"@ == seq!['j', 't', 'i'],
{
    reveal_strlit("iss");
    reveal_strlit("sub");
    reveal_strlit("aud");
    reveal_strlit("exp");
    reveal_strlit("nbf");
    reveal_strlit("iat");
    reveal_strlit("jti");
    assert("iss"@ =~= seq!['i', 's', 's']);
    assert("sub"@ =~= seq!['s', 'u', 'b']);
    assert("aud"@ =~= seq!['a', 'u', 'd']);
    assert("exp"@ =~= seq!['e', 'x', 'p']);
    assert("nbf"@ =~= seq!['n', 'b', 'f']);
    assert("iat"@ =~= seq!['i', 'a', 't']);
    assert("jti"@ =~= seq!['j', 't', 'i']);
}

/// The seven keys are seven different keys: each names its own claim.
pub proof fn lemma_names_distinct()
    ensures
        forall|f: Field| field_named(#[trigger] f.name()) == Some(f),
{
    lemma_names_spelled();
    assert forall|f: Field| field_named(#[trigger] f.name()) == Some(f) by {
        let i = seq!['i', 's', 's'];
        let s = seq!['s', 'u', 'b'];
        let a = seq!['a', 'u', 'd'];
        let e = seq!['e', 'x', 'p'];
        let n = seq!['n', 'b', 'f'];
        let t = seq!['i', 'a', 't'];
        let j = seq!['j', 't', 'i'];
        assert(i[0] == 'i' && i[1] == 's');
        assert(s[0] == 's');
        assert(a[0] == 'a');
        assert(e[0] == 'e');
        assert(n[0] == 'n');
        assert(t[0] == 'i' && t[1] == 'a');
        assert(j[0] == 'j');
    }
}

} // verus!
