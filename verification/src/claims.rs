//! The payload of a token: the registered claims with their types, and the
//! private claims, whose values are kept as they came.
use crate::error::ClaimsError;
use crate::field::field_named;
use crate::field::lemma_names_distinct;
use crate::field::lemma_names_spelled;
use crate::field::registered_names;
use crate::field::Field;
use crate::json::JsonModel;
use crate::json::JsonObject;
use crate::json::JsonValue;
use crate::number::number_from_u64;
use crate::number::NumberModel;
use crate::text::parse;
use crate::text::parsed_json;
use crate::text::print;
use crate::text::printed_json;
use vstd::prelude::*;

verus! {

/// A time, in seconds since the Unix epoch.
pub type SecondsSinceEpoch = u64;

/// The registered claims of RFC 7519. Each one is asserted or not, on its
/// own; a claim that is not asserted is `None`, which is not an empty value.
#[derive(Debug, PartialEq)]
pub struct RegisteredClaims {
    pub issuer: Option<String>,
    pub subject: Option<String>,
    pub audience: Option<Vec<String>>,
    pub expiration: Option<SecondsSinceEpoch>,
    pub not_before: Option<SecondsSinceEpoch>,
    pub issued_at: Option<SecondsSinceEpoch>,
    pub json_web_token_id: Option<String>,
}

/// The claims of a token: the registered ones, and every other key of the
/// payload with its value.
#[derive(Debug, PartialEq)]
pub struct Claims {
    pub registered: RegisteredClaims,
    pub private: JsonObject,
}

/// The mathematical value of [`RegisteredClaims`].
pub struct RegisteredModel {
    pub issuer: Option<Seq<char>>,
    pub subject: Option<Seq<char>>,
    pub audience: Option<Seq<Seq<char>>>,
    pub expiration: Option<u64>,
    pub not_before: Option<u64>,
    pub issued_at: Option<u64>,
    pub json_web_token_id: Option<Seq<char>>,
}

/// The mathematical value of [`Claims`].
pub struct ClaimsModel {
    pub registered: RegisteredModel,
    pub private: Map<Seq<char>, JsonModel>,
}

/// The model of a claim that is a text.
pub open spec fn text_view(value: Option<String>) -> Option<Seq<char>> {
    match value {
        Some(s) => Some(s@),
        None => None,
    }
}

/// The model of a list of texts.
pub open spec fn texts_view(values: Seq<String>) -> Seq<Seq<char>> {
    Seq::new(values.len(), |i: int| values[i]@)
}

/// The model of the audience claim.
pub open spec fn audience_view(value: Option<Vec<String>>) -> Option<Seq<Seq<char>>> {
    match value {
        Some(v) => Some(texts_view(v@)),
        None => None,
    }
}

/// The model of a value that may be missing.
pub open spec fn optional_model(value: Option<JsonValue>) -> Option<JsonModel> {
    match value {
        Some(v) => Some(v@),
        None => None,
    }
}

impl View for RegisteredClaims {
    type V = RegisteredModel;

    open spec fn view(&self) -> RegisteredModel {
        RegisteredModel {
            issuer: text_view(self.issuer),
            subject: text_view(self.subject),
            audience: audience_view(self.audience),
            expiration: self.expiration,
            not_before: self.not_before,
            issued_at: self.issued_at,
            json_web_token_id: text_view(self.json_web_token_id),
        }
    }
}

impl View for Claims {
    type V = ClaimsModel;

    open spec fn view(&self) -> ClaimsModel {
        ClaimsModel { registered: self.registered@, private: self.private@ }
    }
}

impl RegisteredModel {
    /// No claim asserted.
    pub open spec fn empty() -> RegisteredModel {
        RegisteredModel {
            issuer: None,
            subject: None,
            audience: None,
            expiration: None,
            not_before: None,
            issued_at: None,
            json_web_token_id: None,
        }
    }

    /// The JSON value that a claim has on the wire, `None` where the claim is
    /// not asserted. The audience is always written as an array.
    pub open spec fn wire_value(self, field: Field) -> Option<JsonModel> {
        match field {
            Field::Issuer => text_json(self.issuer),
            Field::Subject => text_json(self.subject),
            Field::Audience => match self.audience {
                Some(items) => Some(JsonModel::Array(texts_json(items))),
                None => None,
            },
            Field::Expiration => time_json(self.expiration),
            Field::NotBefore => time_json(self.not_before),
            Field::IssuedAt => time_json(self.issued_at),
            Field::JsonWebTokenId => text_json(self.json_web_token_id),
        }
    }
}

impl ClaimsModel {
    /// No private claim stands under the key of a registered claim.
    pub open spec fn wf(self) -> bool {
        forall|key: Seq<char>| #[trigger]
            self.private.contains_key(key) ==> field_named(key) is None
    }
}

/// A text claim on the wire.
pub open spec fn text_json(value: Option<Seq<char>>) -> Option<JsonModel> {
    match value {
        Some(s) => Some(JsonModel::String(s)),
        None => None,
    }
}

/// A time claim on the wire.
pub open spec fn time_json(value: Option<u64>) -> Option<JsonModel> {
    match value {
        Some(u) => Some(JsonModel::Number(NumberModel::Unsigned(u))),
        None => None,
    }
}

/// A list of texts as JSON strings.
pub open spec fn texts_json(items: Seq<Seq<char>>) -> Seq<JsonModel> {
    Seq::new(items.len(), |i: int| JsonModel::String(items[i]))
}

/// The value under `key`, if the object has that key.
pub open spec fn lookup(fields: Map<Seq<char>, JsonModel>, key: Seq<char>) -> Option<JsonModel> {
    if fields.contains_key(key) {
        Some(fields[key])
    } else {
        None
    }
}

/// A text claim read from the value under its key: not asserted where the
/// key is missing, the text where the value is a string, a mismatch otherwise.
pub open spec fn text_claim(value: Option<JsonModel>, field: Field) -> Result<
    Option<Seq<char>>,
    ClaimsError,
> {
    match value {
        None => Ok(None),
        Some(JsonModel::String(s)) => Ok(Some(s)),
        Some(_) => Err(ClaimsError::ShapeMismatch(field)),
    }
}

/// A time claim read from the value under its key: not asserted where the
/// key is missing, the number where the value is an unsigned integer, a
/// mismatch otherwise.
pub open spec fn time_claim(value: Option<JsonModel>, field: Field) -> Result<
    Option<u64>,
    ClaimsError,
> {
    match value {
        None => Ok(None),
        Some(JsonModel::Number(NumberModel::Unsigned(u))) => Ok(Some(u)),
        Some(_) => Err(ClaimsError::ShapeMismatch(field)),
    }
}

/// Whether every item is a JSON string.
pub open spec fn all_strings(items: Seq<JsonModel>) -> bool {
    forall|i: int| 0 <= i < items.len() ==> #[trigger] items[i] is String
}

/// The texts of a list of JSON strings.
pub open spec fn strings_of(items: Seq<JsonModel>) -> Seq<Seq<char>> {
    Seq::new(items.len(), |i: int| items[i]->String_0)
}

/// The audience read from the value under `aud`. One string is a list of one;
/// an array of strings is that list, in its order; a missing key is no
/// audience, which is not the empty list; any other value, `null` too, is a
/// mismatch.
pub open spec fn audience_claim(value: Option<JsonModel>) -> Result<
    Option<Seq<Seq<char>>>,
    ClaimsError,
> {
    match value {
        None => Ok(None),
        Some(JsonModel::String(s)) => Ok(Some(seq![s])),
        Some(JsonModel::Array(items)) => if all_strings(items) {
            Ok(Some(strings_of(items)))
        } else {
            Err(ClaimsError::ShapeMismatch(Field::Audience))
        },
        Some(_) => Err(ClaimsError::ShapeMismatch(Field::Audience)),
    }
}

/// The registered claims that the fields of an object hold. Where several
/// claims have a value of the wrong type, the first in the order `iss`, `sub`,
/// `aud`, `exp`, `nbf`, `iat`, `jti` is reported.
pub open spec fn decode_registered(fields: Map<Seq<char>, JsonModel>) -> Result<
    RegisteredModel,
    ClaimsError,
> {
    let issuer = text_claim(lookup(fields, Field::Issuer.name()), Field::Issuer);
    let subject = text_claim(lookup(fields, Field::Subject.name()), Field::Subject);
    let audience = audience_claim(lookup(fields, Field::Audience.name()));
    let expiration = time_claim(lookup(fields, Field::Expiration.name()), Field::Expiration);
    let not_before = time_claim(lookup(fields, Field::NotBefore.name()), Field::NotBefore);
    let issued_at = time_claim(lookup(fields, Field::IssuedAt.name()), Field::IssuedAt);
    let json_web_token_id = text_claim(
        lookup(fields, Field::JsonWebTokenId.name()),
        Field::JsonWebTokenId,
    );
    if issuer is Err {
        Err(issuer->Err_0)
    } else if subject is Err {
        Err(subject->Err_0)
    } else if audience is Err {
        Err(audience->Err_0)
    } else if expiration is Err {
        Err(expiration->Err_0)
    } else if not_before is Err {
        Err(not_before->Err_0)
    } else if issued_at is Err {
        Err(issued_at->Err_0)
    } else if json_web_token_id is Err {
        Err(json_web_token_id->Err_0)
    } else {
        Ok(
            RegisteredModel {
                issuer: issuer->Ok_0,
                subject: subject->Ok_0,
                audience: audience->Ok_0,
                expiration: expiration->Ok_0,
                not_before: not_before->Ok_0,
                issued_at: issued_at->Ok_0,
                json_web_token_id: json_web_token_id->Ok_0,
            },
        )
    }
}

/// The claims that a JSON value decodes to. Only an object decodes; its
/// registered keys go to the registered claims, and every other key goes to
/// the private claims with its value unchanged.
pub open spec fn decode(value: JsonModel) -> Result<ClaimsModel, ClaimsError> {
    match value {
        JsonModel::Object(fields) => match decode_registered(fields) {
            Ok(registered) => Ok(
                ClaimsModel { registered, private: fields.remove_keys(registered_names()) },
            ),
            Err(e) => Err(e),
        },
        _ => Err(ClaimsError::MalformedInput),
    }
}

/// The fields that registered claims encode to: one for each asserted claim,
/// under its key, and none for a claim that is not asserted.
pub open spec fn encode_registered(registered: RegisteredModel) -> Map<Seq<char>, JsonModel> {
    Map::new(
        |key: Seq<char>|
            match field_named(key) {
                Some(field) => registered.wire_value(field) is Some,
                None => false,
            },
        |key: Seq<char>| registered.wire_value(field_named(key)->0)->0,
    )
}

/// The fields of `fields` with the registered keys rewritten: each asserted
/// claim stands under its key, and no other registered key is left.
pub open spec fn overlay(fields: Map<Seq<char>, JsonModel>, registered: RegisteredModel) -> Map<
    Seq<char>,
    JsonModel,
> {
    fields.remove_keys(registered_names()).union_prefer_right(encode_registered(registered))
}

/// The JSON value that claims encode to: one flat object with the private
/// claims and the asserted registered claims.
pub open spec fn encode(claims: ClaimsModel) -> JsonModel {
    JsonModel::Object(overlay(claims.private, claims.registered))
}

/// Reads a text claim from the value found under its key.
fn text_value(value: Option<JsonValue>, field: Field) -> (out: Result<Option<String>, ClaimsError>)
    ensures
        match out {
            Ok(text) => text_claim(optional_model(value), field) == Ok::<
                Option<Seq<char>>,
                ClaimsError,
            >(text_view(text)),
            Err(e) => text_claim(optional_model(value), field) == Err::<
                Option<Seq<char>>,
                ClaimsError,
            >(e),
        },
{
    match value {
        None => Ok(None),
        Some(JsonValue::String(s)) => Ok(Some(s)),
        Some(_) => Err(ClaimsError::ShapeMismatch(field)),
    }
}

/// Reads a time claim from the value found under its key.
fn time_value(value: Option<JsonValue>, field: Field) -> (out: Result<
    Option<SecondsSinceEpoch>,
    ClaimsError,
>)
    ensures
        match out {
            Ok(time) => time_claim(optional_model(value), field) == Ok::<Option<u64>, ClaimsError>(
                time,
            ),
            Err(e) => time_claim(optional_model(value), field) == Err::<Option<u64>, ClaimsError>(
                e,
            ),
        },
{
    match value {
        None => Ok(None),
        Some(JsonValue::Number(n)) => match n.as_u64() {
            Some(u) => Ok(Some(u)),
            None => Err(ClaimsError::ShapeMismatch(field)),
        },
        Some(_) => Err(ClaimsError::ShapeMismatch(field)),
    }
}

/// Reads the audience from the value found under `aud`, if any. On the wire
/// the audience is one string or an array of strings; in memory it is always
/// a list.
pub fn parse_audience(value: Option<JsonValue>) -> (out: Result<Option<Vec<String>>, ClaimsError>)
    ensures
        match out {
            Ok(audience) => audience_claim(optional_model(value)) == Ok::<
                Option<Seq<Seq<char>>>,
                ClaimsError,
            >(audience_view(audience)),
            Err(e) => audience_claim(optional_model(value)) == Err::<
                Option<Seq<Seq<char>>>,
                ClaimsError,
            >(e),
        },
{
    match value {
        None => Ok(None),
        Some(JsonValue::String(s)) => {
            let mut audience: Vec<String> = Vec::new();
            audience.push(s);
            assert(texts_view(audience@) =~= seq![s@]);
            Ok(Some(audience))
        },
        Some(JsonValue::Array(items)) => {
            let ghost models = value->0@->Array_0;
            let mut audience: Vec<String> = Vec::new();
            let mut i: usize = 0;
            while i < items.len()
                invariant
                    i <= items@.len(),
                    optional_model(value) == Some(JsonModel::Array(models)),
                    models.len() == items@.len(),
                    forall|j: int| 0 <= j < items@.len() ==> models[j] == (#[trigger] items@[j])@,
                    audience@.len() == i,
                    forall|j: int| 0 <= j < i ==> #[trigger] models[j] is String,
                    forall|j: int|
                        0 <= j < i ==> (#[trigger] audience@[j])@ == models[j]->String_0,
                decreases items@.len() - i,
            {
                match &items[i] {
                    JsonValue::String(s) => {
                        audience.push(s.clone());
                    },
                    _ => {
                        assert(!(models[i as int] is String));
                        return Err(ClaimsError::ShapeMismatch(Field::Audience));
                    },
                }
                i += 1;
            }
            assert(texts_view(audience@) =~= strings_of(models));
            Ok(Some(audience))
        },
        Some(_) => Err(ClaimsError::ShapeMismatch(Field::Audience)),
    }
}

/// The JSON array of the strings of an audience.
fn audience_json(audience: &Vec<String>) -> (out: JsonValue)
    ensures
        out@ == JsonModel::Array(texts_json(texts_view(audience@))),
{
    let mut items: Vec<JsonValue> = Vec::new();
    let mut i: usize = 0;
    while i < audience.len()
        invariant
            i <= audience@.len(),
            items@.len() == i,
            forall|j: int|
                0 <= j < i ==> (#[trigger] items@[j])@ == JsonModel::String(audience@[j]@),
        decreases audience@.len() - i,
    {
        items.push(JsonValue::String(audience[i].clone()));
        i += 1;
    }
    let out = JsonValue::Array(items);
    assert(out@->Array_0 =~= texts_json(texts_view(audience@)));
    out
}

/// Writes a claim into `fields`: its value under its key where the claim is
/// asserted, no entry under that key where it is not.
fn put_claim(fields: &mut JsonObject, field: Field, value: Option<JsonValue>)
    ensures
        final(fields)@ == match value {
            Some(v) => old(fields)@.insert(field.name(), v@),
            None => old(fields)@.remove(field.name()),
        },
{
    match value {
        Some(v) => {
            fields.insert(field.wire_name().to_owned(), v);
        },
        None => {
            fields.remove(field.wire_name());
        },
    }
}

/// A text claim as a JSON value.
fn text_to_json(value: &Option<String>) -> (out: Option<JsonValue>)
    ensures
        optional_model(out) == text_json(text_view(*value)),
{
    match value {
        Some(s) => Some(JsonValue::String(s.clone())),
        None => None,
    }
}

/// A time claim as a JSON value.
fn time_to_json(value: &Option<SecondsSinceEpoch>) -> (out: Option<JsonValue>)
    ensures
        optional_model(out) == time_json(*value),
{
    match value {
        Some(u) => Some(JsonValue::Number(number_from_u64(*u))),
        None => None,
    }
}

impl RegisteredClaims {
    /// Takes the registered claims out of the fields of an object. The seven
    /// registered keys leave `fields`, whatever their values; every other
    /// entry stays as it is, for the caller.
    pub fn take_from(fields: &mut JsonObject) -> (out: Result<RegisteredClaims, ClaimsError>)
        ensures
            final(fields)@ == old(fields)@.remove_keys(registered_names()),
            match out {
                Ok(registered) => decode_registered(old(fields)@) == Ok::<
                    RegisteredModel,
                    ClaimsError,
                >(registered@),
                Err(e) => decode_registered(old(fields)@) == Err::<RegisteredModel, ClaimsError>(e),
            },
    {
        proof {
            lemma_names_spelled();
        }
        let iss = fields.remove(Field::Issuer.wire_name());
        let sub = fields.remove(Field::Subject.wire_name());
        let aud = fields.remove(Field::Audience.wire_name());
        let exp = fields.remove(Field::Expiration.wire_name());
        let nbf = fields.remove(Field::NotBefore.wire_name());
        let iat = fields.remove(Field::IssuedAt.wire_name());
        let jti = fields.remove(Field::JsonWebTokenId.wire_name());
        assert(fields@ =~= old(fields)@.remove_keys(registered_names()));
        let issuer = match text_value(iss, Field::Issuer) {
            Ok(v) => v,
            Err(e) => {
                return Err(e);
            },
        };
        let subject = match text_value(sub, Field::Subject) {
            Ok(v) => v,
            Err(e) => {
                return Err(e);
            },
        };
        let audience = match parse_audience(aud) {
            Ok(v) => v,
            Err(e) => {
                return Err(e);
            },
        };
        let expiration = match time_value(exp, Field::Expiration) {
            Ok(v) => v,
            Err(e) => {
                return Err(e);
            },
        };
        let not_before = match time_value(nbf, Field::NotBefore) {
            Ok(v) => v,
            Err(e) => {
                return Err(e);
            },
        };
        let issued_at = match time_value(iat, Field::IssuedAt) {
            Ok(v) => v,
            Err(e) => {
                return Err(e);
            },
        };
        let json_web_token_id = match text_value(jti, Field::JsonWebTokenId) {
            Ok(v) => v,
            Err(e) => {
                return Err(e);
            },
        };
        Ok(
            RegisteredClaims {
                issuer,
                subject,
                audience,
                expiration,
                not_before,
                issued_at,
                json_web_token_id,
            },
        )
    }

    /// Writes the registered claims into the fields of an object. Each
    /// asserted claim is put under its key; the key of a claim that is not
    /// asserted is taken out, so that it is never written, not even as `null`.
    /// Every other entry stays as it is.
    pub fn put_into(&self, fields: &mut JsonObject)
        ensures
            final(fields)@ == overlay(old(fields)@, self@),
    {
        proof {
            lemma_names_spelled();
        }
        put_claim(fields, Field::Issuer, text_to_json(&self.issuer));
        put_claim(fields, Field::Subject, text_to_json(&self.subject));
        let audience = match &self.audience {
            Some(items) => Some(audience_json(items)),
            None => None,
        };
        put_claim(fields, Field::Audience, audience);
        put_claim(fields, Field::Expiration, time_to_json(&self.expiration));
        put_claim(fields, Field::NotBefore, time_to_json(&self.not_before));
        put_claim(fields, Field::IssuedAt, time_to_json(&self.issued_at));
        put_claim(fields, Field::JsonWebTokenId, text_to_json(&self.json_web_token_id));
        assert(fields@ =~= overlay(old(fields)@, self@));
    }

    /// The object that holds the asserted claims under their keys, and
    /// nothing else.
    pub fn to_object(&self) -> (out: JsonObject)
        ensures
            out@ == encode_registered(self@),
    {
        let mut fields = JsonObject::new();
        self.put_into(&mut fields);
        assert(fields@ =~= encode_registered(self@));
        fields
    }
}

/// A copy of a text claim.
fn clone_text(value: &Option<String>) -> (out: Option<String>)
    ensures
        text_view(out) == text_view(*value),
{
    match value {
        Some(s) => Some(s.clone()),
        None => None,
    }
}

/// A copy of a list of texts.
fn clone_texts(values: &Vec<String>) -> (out: Vec<String>)
    ensures
        texts_view(out@) == texts_view(values@),
{
    let mut out: Vec<String> = Vec::new();
    let mut i: usize = 0;
    while i < values.len()
        invariant
            i <= values@.len(),
            out@.len() == i,
            forall|j: int| 0 <= j < i ==> (#[trigger] out@[j])@ == values@[j]@,
        decreases values@.len() - i,
    {
        out.push(values[i].clone());
        i += 1;
    }
    assert(texts_view(out@) =~= texts_view(values@));
    out
}

impl Clone for RegisteredClaims {
    fn clone(&self) -> (out: RegisteredClaims)
        ensures
            out@ == self@,
    {
        RegisteredClaims {
            issuer: clone_text(&self.issuer),
            subject: clone_text(&self.subject),
            audience: match &self.audience {
                Some(items) => Some(clone_texts(items)),
                None => None,
            },
            expiration: self.expiration,
            not_before: self.not_before,
            issued_at: self.issued_at,
            json_web_token_id: clone_text(&self.json_web_token_id),
        }
    }
}

impl Clone for Claims {
    fn clone(&self) -> (out: Claims)
        ensures
            out@ == self@,
    {
        Claims { registered: self.registered.clone(), private: self.private.clone() }
    }
}

impl Default for RegisteredClaims {
    /// No claim asserted.
    fn default() -> (out: RegisteredClaims)
        ensures
            out@ == RegisteredModel::empty(),
    {
        RegisteredClaims {
            issuer: None,
            subject: None,
            audience: None,
            expiration: None,
            not_before: None,
            issued_at: None,
            json_web_token_id: None,
        }
    }
}

impl Claims {
    /// Claims with the given registered claims and no private claim.
    pub fn new(registered: RegisteredClaims) -> (out: Claims)
        ensures
            out.registered == registered,
            out.private@ == Map::<Seq<char>, JsonModel>::empty(),
            out@.wf(),
    {
        Claims { registered, private: JsonObject::new() }
    }

    /// Whether no private claim stands under the key of a registered claim.
    pub fn is_well_formed(&self) -> (out: bool)
        ensures
            out == self@.wf(),
    {
        let clash = self.private.contains_key(Field::Issuer.wire_name())
            || self.private.contains_key(Field::Subject.wire_name())
            || self.private.contains_key(Field::Audience.wire_name())
            || self.private.contains_key(Field::Expiration.wire_name())
            || self.private.contains_key(Field::NotBefore.wire_name())
            || self.private.contains_key(Field::IssuedAt.wire_name())
            || self.private.contains_key(Field::JsonWebTokenId.wire_name());
        proof {
            lemma_names_distinct();
            if clash {
                let field = if self@.private.contains_key(Field::Issuer.name()) {
                    Field::Issuer
                } else if self@.private.contains_key(Field::Subject.name()) {
                    Field::Subject
                } else if self@.private.contains_key(Field::Audience.name()) {
                    Field::Audience
                } else if self@.private.contains_key(Field::Expiration.name()) {
                    Field::Expiration
                } else if self@.private.contains_key(Field::NotBefore.name()) {
                    Field::NotBefore
                } else if self@.private.contains_key(Field::IssuedAt.name()) {
                    Field::IssuedAt
                } else {
                    Field::JsonWebTokenId
                };
                assert(self@.private.contains_key(field.name()));
                assert(field_named(field.name()) == Some(field));
            } else {
                assert forall|key: Seq<char>| #[trigger]
                    self@.private.contains_key(key) implies field_named(key) is None by {
                    if field_named(key) is Some {
                        assert(key == field_named(key)->0.name());
                    }
                }
            }
        }
        !clash
    }

    /// Decodes the claims from a JSON value. The value must be an object, and
    /// each registered key that it has must have a value of the claim's type;
    /// other keys are accepted whatever their values.
    pub fn from_value(value: JsonValue) -> (out: Result<Claims, ClaimsError>)
        ensures
            match out {
                Ok(claims) => decode(value@) == Ok::<ClaimsModel, ClaimsError>(claims@)
                    && claims@.wf(),
                Err(e) => decode(value@) == Err::<ClaimsModel, ClaimsError>(e),
            },
    {
        match value {
            JsonValue::Object(fields) => {
                let mut fields = fields;
                match RegisteredClaims::take_from(&mut fields) {
                    Ok(registered) => Ok(Claims { registered, private: fields }),
                    Err(e) => Err(e),
                }
            },
            _ => Err(ClaimsError::MalformedInput),
        }
    }

    /// Encodes the claims as one flat JSON object. A private claim under the
    /// key of a registered claim is not written: those keys belong to the
    /// registered claims.
    pub fn to_value(&self) -> (out: JsonValue)
        ensures
            out@ == encode(self@),
    {
        let mut fields = self.private.clone();
        self.registered.put_into(&mut fields);
        JsonValue::Object(fields)
    }

    /// Decodes the claims from the JSON text of a payload.
    pub fn from_json(text: &str) -> (out: Result<Claims, ClaimsError>)
        ensures
            match out {
                Ok(claims) => decode_text(text@) == Ok::<ClaimsModel, ClaimsError>(claims@)
                    && claims@.wf(),
                Err(e) => decode_text(text@) == Err::<ClaimsModel, ClaimsError>(e),
            },
    {
        match parse(text) {
            Ok(value) => Claims::from_value(value),
            Err(e) => Err(e),
        }
    }

    /// Encodes the claims as the JSON text of a payload.
    pub fn to_json(&self) -> (out: Result<String, ClaimsError>)
        ensures
            match out {
                Ok(text) => printed_json(encode(self@)) == Some(text@),
                Err(e) => e == ClaimsError::MalformedOutput && printed_json(encode(self@)) is None,
            },
    {
        let value = self.to_value();
        print(&value)
    }
}

impl Default for Claims {
    /// No claim at all.
    fn default() -> (out: Claims)
        ensures
            out@.registered == RegisteredModel::empty(),
            out@.private == Map::<Seq<char>, JsonModel>::empty(),
            out@.wf(),
    {
        Claims { registered: RegisteredClaims::default(), private: JsonObject::new() }
    }
}

/// The claims that a JSON text decodes to: those of the value that the
/// text holds, and malformed input where it holds none.
pub open spec fn decode_text(text: Seq<char>) -> Result<ClaimsModel, ClaimsError> {
    match parsed_json(text) {
        Some(value) => decode(value),
        None => Err(ClaimsError::MalformedInput),
    }
}

/// Decoding what was encoded gives the claims back: for well-formed claims
/// `c`, `decode(encode(c)) == c`. The texts need not agree: an audience that
/// came as one string goes out as an array of one.
pub proof fn lemma_round_trip(claims: ClaimsModel)
    requires
        claims.wf(),
    ensures
        decode(encode(claims)) == Ok::<ClaimsModel, ClaimsError>(claims),
{
    lemma_names_distinct();
    let fields = overlay(claims.private, claims.registered);
    assert forall|field: Field| lookup(fields, #[trigger] field.name())
        == claims.registered.wire_value(field) by {
        assert(field_named(field.name()) == Some(field));
    }
    match claims.registered.audience {
        Some(items) => {
            assert(strings_of(texts_json(items)) =~= items);
        },
        None => {},
    }
    assert(fields.remove_keys(registered_names()) =~= claims.private);
}

/// The same for texts, as far as the JSON reader reads back the value that
/// the JSON writer wrote: where `text` is what is written for the encoding of
/// well-formed claims, and reading `text` gives that encoding, `text` decodes
/// to the claims.
pub proof fn lemma_round_trip_text(claims: ClaimsModel, text: Seq<char>)
    requires
        claims.wf(),
    ensures
        printed_json(encode(claims)) == Some(text) && parsed_json(text) == Some(encode(claims))
            ==> decode_text(text) == Ok::<ClaimsModel, ClaimsError>(claims),
{
    lemma_round_trip(claims);
}

/// A claim that is not asserted is left out of the encoding, and one that is
/// asserted stands under its key with its own value, which is never `null`.
pub proof fn lemma_absent_claims_omitted(claims: ClaimsModel, field: Field)
    ensures
        encode(claims) is Object,
        claims.registered.wire_value(field) is None ==> !encode(claims)->Object_0.contains_key(
            field.name(),
        ),
        claims.registered.wire_value(field) is Some ==> lookup(
            encode(claims)->Object_0,
            field.name(),
        ) == claims.registered.wire_value(field),
        lookup(encode(claims)->Object_0, field.name()) != Some(JsonModel::Null),
{
    lemma_names_distinct();
    assert(field_named(field.name()) == Some(field));
}

/// Whether a JSON value has the type of a registered claim: a string for
/// `iss`, `sub` and `jti`, an unsigned integer for `exp`, `nbf` and `iat`, a
/// string or an array of strings for `aud`.
pub open spec fn fits(value: JsonModel, field: Field) -> bool {
    match field {
        Field::Issuer | Field::Subject | Field::JsonWebTokenId => value is String,
        Field::Expiration | Field::NotBefore | Field::IssuedAt => value matches JsonModel::Number(
            NumberModel::Unsigned(_),
        ),
        Field::Audience => match value {
            JsonModel::String(_) => true,
            JsonModel::Array(items) => all_strings(items),
            _ => false,
        },
    }
}

/// An object decodes exactly when each registered key that it has holds a
/// value of the claim's type. A value of another type is never coerced and
/// never dropped: it fails the decoding with a mismatch, whatever the other
/// keys hold.
pub proof fn lemma_decodes_when_shapes_fit(fields: Map<Seq<char>, JsonModel>)
    ensures
        decode(JsonModel::Object(fields)) is Ok <==> forall|field: Field|
            fields.contains_key(#[trigger] field.name()) ==> fits(fields[field.name()], field),
        decode(JsonModel::Object(fields)) matches Err(e) ==> e matches ClaimsError::ShapeMismatch(
            field,
        ) && fields.contains_key(field.name()) && !fits(fields[field.name()], field),
{
    if decode(JsonModel::Object(fields)) is Ok {
        assert forall|field: Field| fields.contains_key(#[trigger] field.name()) implies fits(
            fields[field.name()],
            field,
        ) by {}
    } else {
        let field = decode(JsonModel::Object(fields))->Err_0->ShapeMismatch_0;
        assert(fields.contains_key(field.name()) && !fits(fields[field.name()], field));
    }
}

/// The audience of decoded claims is a list whatever form it had on the wire:
/// one string gives a list of one, an array of strings gives that list in its
/// order, and a missing `aud` gives no audience, which is not the empty list.
pub proof fn lemma_audience_normalized(value: JsonModel)
    requires
        decode(value) is Ok,
    ensures
        value is Object,
        match lookup(value->Object_0, Field::Audience.name()) {
            None => decode(value)->Ok_0.registered.audience is None,
            Some(JsonModel::String(s)) => decode(value)->Ok_0.registered.audience == Some(seq![s]),
            Some(JsonModel::Array(items)) => all_strings(items) && decode(
                value,
            )->Ok_0.registered.audience == Some(strings_of(items)),
            Some(_) => false,
        },
{
}

/// In decoded claims the registered keys and the private keys do not meet:
/// every key of the object went to exactly one side, by exact match of the
/// key, and the private side holds each of its keys with the value it had.
pub proof fn lemma_decoded_keys_disjoint(value: JsonModel)
    requires
        decode(value) is Ok,
    ensures
        value is Object,
        decode(value)->Ok_0.wf(),
        forall|key: Seq<char>| #[trigger]
            value->Object_0.contains_key(key) ==> (field_named(key) is Some) != decode(
                value,
            )->Ok_0.private.contains_key(key),
        forall|key: Seq<char>| #[trigger]
            decode(value)->Ok_0.private.contains_key(key) ==> value->Object_0.contains_key(key)
                && decode(value)->Ok_0.private[key] == value->Object_0[key],
{
}

} // verus!
