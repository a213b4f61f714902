//! The command reader agrees with `serde_json` reading the same record
//! `{idem: u64, delta: i64}` through a `Deserialize` written out by hand the
//! way a derived one behaves (object or sequence form, duplicate fields
//! refused, unknown fields ignored).

use multiraft::counter_fsm::decode_cmd;
use serde::de::Error;
use serde::de::IgnoredAny;
use serde::de::MapAccess;
use serde::de::SeqAccess;
use serde::de::Visitor;
use serde::Deserialize;
use serde::Deserializer;

#[derive(Debug, PartialEq)]
struct Record {
    idem: u64,
    delta: i64,
}

enum Field {
    Idem,
    Delta,
    Other,
}

struct FieldVisitor;

impl<'de> Visitor<'de> for FieldVisitor {
    type Value = Field;

    fn expecting(&self, f: &mut std::fmt::Formatter) -> std::fmt::Result {
        f.write_str("field identifier")
    }

    fn visit_str<E: Error>(self, v: &str) -> Result<Field, E> {
        Ok(match v {
            "idem" => Field::Idem,
            "delta" => Field::Delta,
            _ => Field::Other,
        })
    }
}

impl<'de> Deserialize<'de> for Field {
    fn deserialize<D: Deserializer<'de>>(d: D) -> Result<Field, D::Error> {
        d.deserialize_identifier(FieldVisitor)
    }
}

struct RecordVisitor;

impl<'de> Visitor<'de> for RecordVisitor {
    type Value = Record;

    fn expecting(&self, f: &mut std::fmt::Formatter) -> std::fmt::Result {
        f.write_str("struct Record")
    }

    fn visit_seq<A: SeqAccess<'de>>(self, mut seq: A) -> Result<Record, A::Error> {
        let idem = match seq.next_element::<u64>()? {
            Some(v) => v,
            None => return Err(A::Error::invalid_length(0, &"struct Record with 2 elements")),
        };
        let delta = match seq.next_element::<i64>()? {
            Some(v) => v,
            None => return Err(A::Error::invalid_length(1, &"struct Record with 2 elements")),
        };
        Ok(Record { idem, delta })
    }

    fn visit_map<A: MapAccess<'de>>(self, mut map: A) -> Result<Record, A::Error> {
        let mut idem: Option<u64> = None;
        let mut delta: Option<i64> = None;
        while let Some(key) = map.next_key::<Field>()? {
            match key {
                Field::Idem => {
                    if idem.is_some() {
                        return Err(A::Error::duplicate_field("idem"));
                    }
                    idem = Some(map.next_value::<u64>()?);
                }
                Field::Delta => {
                    if delta.is_some() {
                        return Err(A::Error::duplicate_field("delta"));
                    }
                    delta = Some(map.next_value::<i64>()?);
                }
                Field::Other => {
                    let _ = map.next_value::<IgnoredAny>()?;
                }
            }
        }
        let idem = match idem {
            Some(v) => v,
            None => return Err(A::Error::missing_field("idem")),
        };
        let delta = match delta {
            Some(v) => v,
            None => return Err(A::Error::missing_field("delta")),
        };
        Ok(Record { idem, delta })
    }
}

impl<'de> Deserialize<'de> for Record {
    fn deserialize<D: Deserializer<'de>>(d: D) -> Result<Record, D::Error> {
        d.deserialize_struct("Record", &["idem", "delta"], RecordVisitor)
    }
}

const CORPUS: &[&[u8]] = &[
    b"{\"idem\":1,\"delta\":2}",
    b"{\"delta\":2,\"idem\":1}",
    b" \t\r\n{ \"idem\" : 1 , \"delta\" : -2 } \n",
    b"{\"idem\":1,\"idem\":2,\"delta\":3}",
    b"{\"delta\":1,\"idem\":2,\"delta\":3}",
    b"{\"idem\":1,\"delta\":2,\"idem\":3}",
    b"{\"idem\":1,\"id\\u0065m\":2,\"delta\":3}",
    b"{\"id\\u0065m\":1,\"d\\u0065lta\":2}",
    b"{\"x\":\"s\",\"idem\":1,\"delta\":2,\"x\":null}",
    b"{\"x\":[1,[2,{\"a\":{}}],true,false,null,-0.5e-3,\"\\\\\"],\"idem\":1,\"delta\":2}",
    b"{\"x\":[1,],\"idem\":1,\"delta\":2}",
    b"{\"x\":{\"a\":1,},\"idem\":1,\"delta\":2}",
    b"{\"x\":[1}],\"idem\":1,\"delta\":2}",
    b"{\"x\":01,\"idem\":1,\"delta\":2}",
    b"{\"x\":1.,\"idem\":1,\"delta\":2}",
    b"{\"x\":1e,\"idem\":1,\"delta\":2}",
    b"{\"x\":-,\"idem\":1,\"delta\":2}",
    b"{\"x\":tru,\"idem\":1,\"delta\":2}",
    b"{\"x\":\"\\q\",\"idem\":1,\"delta\":2}",
    b"{\"x\":\"\\u12\",\"idem\":1,\"delta\":2}",
    b"{\"x\":\"\x01\",\"idem\":1,\"delta\":2}",
    b"{\"\\ud83d\\ude00\":1,\"idem\":1,\"delta\":2}",
    b"{\"\\ud83d\":1,\"idem\":1,\"delta\":2}",
    b"{\"\\ude00\":1,\"idem\":1,\"delta\":2}",
    b"{\"\\ud83d\\u0041\":1,\"idem\":1,\"delta\":2}",
    b"{\"\xc3\xa9\":1,\"idem\":1,\"delta\":2}",
    b"{\"\xc3\":1,\"idem\":1,\"delta\":2}",
    b"{\"\xed\xa0\x80\":1,\"idem\":1,\"delta\":2}",
    b"{\"idem\":1}",
    b"{\"delta\":1}",
    b"{}",
    b"{\"idem\":1,\"delta\":2,}",
    b"{\"idem\":1 \"delta\":2}",
    b"{\"idem\":1,\"delta\":2",
    b"{\"idem\":1,\"delta\":2}}",
    b"{\"idem\":1,\"delta\":2} x",
    b"{idem:1,delta:2}",
    b"{,\"idem\":1,\"delta\":2}",
    b"{\"idem\" 1,\"delta\":2}",
    b"{\"idem\":-1,\"delta\":2}",
    b"{\"idem\":-0,\"delta\":2}",
    b"{\"idem\":0,\"delta\":-0}",
    b"{\"idem\":0,\"delta\":0}",
    b"{\"idem\":18446744073709551615,\"delta\":9223372036854775807}",
    b"{\"idem\":18446744073709551616,\"delta\":1}",
    b"{\"idem\":1,\"delta\":9223372036854775808}",
    b"{\"idem\":1,\"delta\":-9223372036854775808}",
    b"{\"idem\":1,\"delta\":-9223372036854775809}",
    b"{\"idem\":1,\"delta\":-18446744073709551615}",
    b"{\"idem\":1.0,\"delta\":2}",
    b"{\"idem\":1e2,\"delta\":2}",
    b"{\"idem\":1E2,\"delta\":2}",
    b"{\"idem\":007,\"delta\":2}",
    b"{\"idem\":\"1\",\"delta\":2}",
    b"{\"idem\":null,\"delta\":2}",
    b"{\"idem\":+1,\"delta\":2}",
    b"[1,2]",
    b"[ 1 , -2 ]",
    b"[]",
    b"[1]",
    b"[1,]",
    b"[1,2,]",
    b"[1,2,3]",
    b"[1 2]",
    b"[-1,2]",
    b"[1,2",
    b"\"idem\"",
    b"1",
    b"null",
    b"",
    b"   ",
];

#[test]
fn reader_agrees_with_serde_json_record() {
    for input in CORPUS {
        let ours = decode_cmd(input);
        let theirs = serde_json::from_slice::<Record>(input);
        match (&ours, &theirs) {
            (Ok((i, d)), Ok(r)) => assert_eq!((*i, *d), (r.idem, r.delta), "{:?}", String::from_utf8_lossy(input)),
            (Err(_), Err(_)) => {}
            _ => panic!(
                "disagreement on {:?}: ours {:?}, serde_json {:?}",
                String::from_utf8_lossy(input),
                ours,
                theirs.map(|r| (r.idem, r.delta)).map_err(|e| e.to_string())
            ),
        }
    }
}
