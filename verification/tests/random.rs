use jwt_claims::claims::Claims;
use jwt_claims::claims::RegisteredClaims;
use jwt_claims::field::Field;
use jwt_claims::json::JsonObject;
use jwt_claims::json::JsonValue;
use jwt_claims::text::from_serde;
use jwt_claims::text::parse;
use jwt_claims::text::print;
use jwt_claims::text::to_serde;
use std::collections::BTreeMap;

/// A small deterministic generator, so that every run sees the same cases.
struct Source(u64);

impl Source {
    fn next(&mut self) -> u64 {
        self.0 = self.0.wrapping_mul(6364136223846793005).wrapping_add(1442695040888963407);
        self.0 >> 33
    }

    fn below(&mut self, bound: u64) -> u64 {
        self.next() % bound
    }

    fn key(&mut self) -> String {
        let pool = [
            "", "a", "b", "ab", "iss", "sub", "aud", "exp", "nbf", "iat", "jti", "ISS", "iss ",
            " exp", "k\u{e9}", "k\u{1F600}", "z", "custom_claim", "x\"y", "line\nbreak",
        ];
        pool[self.below(pool.len() as u64) as usize].to_string()
    }

    fn number(&mut self) -> serde_json::Number {
        match self.below(4) {
            0 => serde_json::Number::from(self.next()),
            1 => serde_json::Number::from(-((self.next() % 1000) as i64) - 1),
            2 => serde_json::Number::from_f64((self.below(2000) as f64) / 8.0 + 0.125).unwrap(),
            _ => serde_json::Number::from(u64::MAX - self.below(3)),
        }
    }

    fn value(&mut self, depth: u32) -> serde_json::Value {
        let kinds = if depth == 0 { 4 } else { 6 };
        match self.below(kinds) {
            0 => serde_json::Value::Null,
            1 => serde_json::Value::Bool(self.below(2) == 0),
            2 => serde_json::Value::Number(self.number()),
            3 => serde_json::Value::String(self.key()),
            4 => {
                let count = self.below(4);
                serde_json::Value::Array((0..count).map(|_| self.value(depth - 1)).collect())
            }
            _ => {
                let count = self.below(5);
                let mut map = serde_json::Map::new();
                for _ in 0..count {
                    let key = self.key();
                    map.insert(key, self.value(depth - 1));
                }
                serde_json::Value::Object(map)
            }
        }
    }
}

#[test]
fn conversions_are_inverse_on_many_values() {
    let mut source = Source(7);
    for _ in 0..400 {
        let outside = source.value(4);
        let inside = from_serde(&outside);
        assert_eq!(to_serde(&inside), outside);
        assert_eq!(from_serde(&to_serde(&inside)), inside);
        assert_eq!(inside.clone(), inside);
        let text = serde_json::to_string(&outside).unwrap();
        assert_eq!(print(&inside), Ok(text.clone()));
        assert_eq!(parse(&text), Ok(inside));
    }
}

#[test]
fn objects_behave_as_ordered_maps() {
    let mut source = Source(11);
    for _ in 0..60 {
        let mut object = JsonObject::new();
        let mut model: BTreeMap<String, JsonValue> = BTreeMap::new();
        for _ in 0..80 {
            let key = source.key();
            match source.below(4) {
                0 | 1 => {
                    let value = from_serde(&source.value(1));
                    assert_eq!(object.insert(key.clone(), value.clone()), model.insert(key, value));
                }
                2 => {
                    assert_eq!(object.remove(&key), model.remove(&key));
                }
                _ => {
                    assert_eq!(object.get(&key), model.get(&key));
                    assert_eq!(object.contains_key(&key), model.contains_key(&key));
                }
            }
            assert_eq!(object.len(), model.len());
            assert_eq!(object.is_empty(), model.is_empty());
            let listed: Vec<(String, JsonValue)> =
                object.entries().iter().map(|entry| (entry.0.clone(), entry.1.clone())).collect();
            let expected: Vec<(String, JsonValue)> =
                model.iter().map(|(k, v)| (k.clone(), v.clone())).collect();
            assert_eq!(listed, expected);
        }
    }
}

#[test]
fn well_formed_claims_round_trip() {
    let mut source = Source(23);
    for _ in 0..300 {
        let mut claims = Claims::new(RegisteredClaims {
            issuer: if source.below(2) == 0 { Some(source.key()) } else { None },
            subject: if source.below(2) == 0 { Some(source.key()) } else { None },
            audience: if source.below(2) == 0 {
                Some((0..source.below(3)).map(|_| source.key()).collect())
            } else {
                None
            },
            expiration: if source.below(2) == 0 { Some(source.next()) } else { None },
            not_before: if source.below(2) == 0 { Some(source.below(5)) } else { None },
            issued_at: if source.below(2) == 0 { Some(u64::MAX) } else { None },
            json_web_token_id: if source.below(2) == 0 { Some(source.key()) } else { None },
        });
        for _ in 0..source.below(5) {
            let key = source.key();
            if Field::named(&key).is_none() {
                claims.private.insert(key, from_serde(&source.value(3)));
            }
        }
        assert!(claims.is_well_formed());
        let value = claims.to_value();
        match &value {
            JsonValue::Object(fields) => {
                for (field, present) in [
                    (Field::Issuer, claims.registered.issuer.is_some()),
                    (Field::Subject, claims.registered.subject.is_some()),
                    (Field::Audience, claims.registered.audience.is_some()),
                    (Field::Expiration, claims.registered.expiration.is_some()),
                    (Field::NotBefore, claims.registered.not_before.is_some()),
                    (Field::IssuedAt, claims.registered.issued_at.is_some()),
                    (Field::JsonWebTokenId, claims.registered.json_web_token_id.is_some()),
                ] {
                    assert_eq!(fields.contains_key(field.wire_name()), present);
                    assert_ne!(fields.get(field.wire_name()), Some(&JsonValue::Null));
                }
                assert_eq!(fields.len(), claims.private.len() + claims.registered.to_object().len());
            }
            _ => panic!("claims encode to an object"),
        }
        assert_eq!(Claims::from_value(value), Ok(claims.clone()));
        let text = claims.to_json().unwrap();
        let decoded = Claims::from_json(&text).unwrap();
        assert!(decoded.is_well_formed());
        assert_eq!(decoded, claims);
    }
}

#[test]
fn decoding_splits_the_keys_of_any_object() {
    let mut source = Source(31);
    let mut decoded_some = 0;
    for _ in 0..400 {
        let mut map = serde_json::Map::new();
        for _ in 0..source.below(8) {
            let key = source.key();
            map.insert(key, source.value(2));
        }
        let outside = serde_json::Value::Object(map.clone());
        match Claims::from_value(from_serde(&outside)) {
            Ok(claims) => {
                decoded_some += 1;
                assert!(claims.is_well_formed());
                for (key, value) in &map {
                    match Field::named(key) {
                        Some(_) => assert!(!claims.private.contains_key(key)),
                        None => assert_eq!(claims.private.get(key), Some(&from_serde(value))),
                    }
                }
                let registered = map.keys().filter(|key| Field::named(key).is_some()).count();
                assert_eq!(claims.private.len() + registered, map.len());
            }
            Err(_) => {
                assert!(map.keys().any(|key| Field::named(key).is_some()));
            }
        }
    }
    assert!(decoded_some > 50);
}
