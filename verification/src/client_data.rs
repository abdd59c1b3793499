//! Parsing and validation of `clientDataJSON`.
//!
//! The client data binds a ceremony to a type, a challenge and an origin. Parsing is
//! separate from validation, so that an error names the field that failed.

use vstd::prelude::*;
use vstd::utf8::encode_utf8;

use crate::bytes::{bytes_equal, copy_bytes};
use crate::data::{
    field_repeats, find_field, is_record, json_item, law_members, law_text_fields,
    lemma_other_member, no_entry, only_entry, read_text_field, record_field, record_shaped,
    repeats, text_field, DataItem, Item,
};
use crate::encoding::{base64_bytes, decode_base64, Alphabet};
use crate::error::{outcome, Failure, WebAuthnError};
use crate::json::{
    cut, decode_json_as, enclosed, json_fault, json_value, law_unknown_members_are_skipped, listed,
    member_shape, Shape,
};
use crate::text::{join, join3, join5, text_equal, texts};

verus! {

/// The members of `clientDataJSON` that ceremonies use. Others are ignored.
#[derive(Debug)]
pub struct RawClientData {
    /// The ceremony type.
    pub type_: String,
    /// The challenge, base64url-encoded.
    pub challenge: String,
    /// The origin that the client reports.
    pub origin: String,
    /// Whether the client reports a cross-origin use.
    pub cross_origin: Option<bool>,
}

/// The mathematical form of [`RawClientData`].
pub ghost struct RawClientModel {
    pub type_: Seq<char>,
    pub challenge: Seq<char>,
    pub origin: Seq<char>,
    pub cross_origin: Option<bool>,
}

impl View for RawClientData {
    type V = RawClientModel;

    open spec fn view(&self) -> RawClientModel {
        RawClientModel {
            type_: self.type_@,
            challenge: self.challenge@,
            origin: self.origin@,
            cross_origin: self.cross_origin,
        }
    }
}

/// Decoded `clientDataJSON`, ready for validation.
#[derive(Debug)]
pub struct ParsedClientData {
    /// The ceremony type: `"webauthn.create"` or `"webauthn.get"`.
    pub type_: String,
    /// The challenge bytes.
    pub challenge_bytes: Vec<u8>,
    /// The origin that the client reports, e.g. `"https://example.com"`.
    pub origin: String,
    /// Whether the client reports a cross-origin use.
    pub cross_origin: Option<bool>,
    /// The JSON bytes as received: the client data hash is computed over exactly these.
    pub raw_json: Vec<u8>,
}

/// The mathematical form of [`ParsedClientData`].
pub ghost struct ClientDataModel {
    pub type_: Seq<char>,
    pub challenge_bytes: Seq<u8>,
    pub origin: Seq<char>,
    pub cross_origin: Option<bool>,
    pub raw_json: Seq<u8>,
}

impl View for ParsedClientData {
    type V = ClientDataModel;

    open spec fn view(&self) -> ClientDataModel {
        ClientDataModel {
            type_: self.type_@,
            challenge_bytes: self.challenge_bytes@,
            origin: self.origin@,
            cross_origin: self.cross_origin,
            raw_json: self.raw_json@,
        }
    }
}

/// The optional boolean member `crossOrigin`: absent and null are the same.
pub open spec fn cross_origin_field(v: Item) -> Result<Option<bool>, Seq<char>> {
    if repeats(v, "crossOrigin"@) {
        Err("duplicate field `crossOrigin`"@)
    } else {
        match record_field(v, "crossOrigin"@, 3) {
            None => Ok(None),
            Some(Item::Null) => Ok(None),
            Some(Item::Bool(b)) => Ok(Some(b)),
            Some(_) => Err("invalid type for field `crossOrigin`: expected a boolean"@),
        }
    }
}

/// The client data in a JSON value, an object or an array of its four members; or what
/// is wrong with it.
pub open spec fn raw_client_data(v: Item) -> Result<RawClientModel, Seq<char>> {
    if !is_record(v, 4, 4) {
        Err("invalid type: expected a client data object"@)
    } else {
        match (
            text_field(v, "type"@, 0),
            text_field(v, "challenge"@, 1),
            text_field(v, "origin"@, 2),
            cross_origin_field(v),
        ) {
            (Err(e), _, _, _) => Err(e),
            (Ok(_), Err(e), _, _) => Err(e),
            (Ok(_), Ok(_), Err(e), _) => Err(e),
            (Ok(_), Ok(_), Ok(_), Err(e)) => Err(e),
            (Ok(type_), Ok(challenge), Ok(origin), Ok(cross_origin)) => Ok(
                RawClientModel { type_, challenge, origin, cross_origin },
            ),
        }
    }
}

fn read_cross_origin(v: &DataItem) -> (r: Result<Option<bool>, String>)
    ensures
        match r {
            Ok(b) => cross_origin_field(v@) == Ok::<Option<bool>, Seq<char>>(b),
            Err(e) => cross_origin_field(v@) == Err::<Option<bool>, Seq<char>>(e@),
        },
{
    if field_repeats(v, "crossOrigin") {
        return Err("duplicate field `crossOrigin`".to_string());
    }
    match find_field(v, "crossOrigin", 3) {
        None => Ok(None),
        Some(DataItem::Null) => Ok(None),
        Some(DataItem::Bool(b)) => Ok(Some(*b)),
        Some(_) => Err(
            "invalid type for field `crossOrigin`: expected a boolean".to_string(),
        ),
    }
}

/// Reads client data out of a JSON value.
pub fn client_data_from_item(v: &DataItem) -> (r: Result<RawClientData, String>)
    ensures
        match r {
            Ok(raw) => raw_client_data(v@) == Ok::<RawClientModel, Seq<char>>(raw@),
            Err(e) => raw_client_data(v@) == Err::<RawClientModel, Seq<char>>(e@),
        },
{
    if !record_shaped(v, 4, 4) {
        return Err("invalid type: expected a client data object".to_string());
    }
    let type_ = match read_text_field(v, "type", 0) {
        Ok(s) => s,
        Err(e) => return Err(e),
    };
    let challenge = match read_text_field(v, "challenge", 1) {
        Ok(s) => s,
        Err(e) => return Err(e),
    };
    let origin = match read_text_field(v, "origin", 2) {
        Ok(s) => s,
        Err(e) => return Err(e),
    };
    match read_cross_origin(v) {
        Ok(cross_origin) => Ok(RawClientData { type_, challenge, origin, cross_origin }),
        Err(e) => Err(e),
    }
}

/// What client data bytes stand for.
pub open spec fn client_data(raw: Seq<u8>) -> Result<ClientDataModel, Failure> {
    if raw.len() == 0 {
        Err(Failure::InvalidClientData("empty client data"@))
    } else {
        let fields = match json_value(raw, Shape::ClientData) {
            Ok(v) => raw_client_data(v),
            Err(message) => Err(message),
        };
        match fields {
            Err(message) => Err(Failure::InvalidClientData("JSON parse failed: "@ + message)),
            Ok(fields) => match base64_bytes(
                Alphabet::UrlSafeNoPad,
                encode_utf8(fields.challenge),
            ) {
                Err(message) => Err(Failure::Base64DecodeError("challenge field: "@ + message)),
                Ok(challenge_bytes) => Ok(
                    ClientDataModel {
                        type_: fields.type_,
                        challenge_bytes,
                        origin: fields.origin,
                        cross_origin: fields.cross_origin,
                        raw_json: raw,
                    },
                ),
            },
        }
    }
}

/// Parses `clientDataJSON` bytes. Type, challenge and origin are not validated.
pub fn parse_client_data(raw: &[u8]) -> (r: Result<ParsedClientData, WebAuthnError>)
    ensures
        outcome(r) == client_data(raw@),
{
    if raw.is_empty() {
        return Err(WebAuthnError::InvalidClientData("empty client data".to_string()));
    }
    let fields = match decode_json_as(raw, Shape::ClientData) {
        Ok(v) => client_data_from_item(&v),
        Err(message) => Err(message),
    };
    let fields = match fields {
        Ok(fields) => fields,
        Err(message) => return Err(
            WebAuthnError::InvalidClientData(join("JSON parse failed: ", message.as_str())),
        ),
    };
    match decode_base64(Alphabet::UrlSafeNoPad, fields.challenge.as_str().as_bytes()) {
        Ok(challenge_bytes) => Ok(
            ParsedClientData {
                type_: fields.type_,
                challenge_bytes,
                origin: fields.origin,
                cross_origin: fields.cross_origin,
                raw_json: copy_bytes(raw),
            },
        ),
        Err(message) => Err(
            WebAuthnError::Base64DecodeError(join("challenge field: ", message.as_str())),
        ),
    }
}

/// The check of type and challenge, in this order.
pub open spec fn binding_check(
    parsed: ClientDataModel,
    expected_type: Seq<char>,
    expected_challenge: Seq<u8>,
) -> Result<(), Failure> {
    if parsed.type_.len() == 0 {
        Err(Failure::InvalidClientData("type field is empty"@))
    } else if parsed.type_ != expected_type {
        Err(
            Failure::InvalidClientData(
                "expected type \""@ + expected_type + "\", got \""@ + parsed.type_ + "\""@,
            ),
        )
    } else if parsed.challenge_bytes != expected_challenge {
        Err(Failure::ChallengeMismatch)
    } else {
        Ok(())
    }
}

/// The check against one origin: type, challenge, origin, in this order.
pub open spec fn client_data_check(
    parsed: ClientDataModel,
    expected_type: Seq<char>,
    expected_challenge: Seq<u8>,
    expected_origin: Seq<char>,
) -> Result<(), Failure> {
    match binding_check(parsed, expected_type, expected_challenge) {
        Err(failure) => Err(failure),
        Ok(_) => if parsed.origin != expected_origin {
            Err(Failure::OriginMismatch { expected: expected_origin, got: parsed.origin })
        } else {
            Ok(())
        },
    }
}

fn check_binding(parsed: &ParsedClientData, expected_type: &str, expected_challenge: &[u8]) -> (r:
    Result<(), WebAuthnError>)
    ensures
        outcome(r) == binding_check(parsed@, expected_type@, expected_challenge@),
{
    if parsed.type_.as_str().is_empty() {
        return Err(WebAuthnError::InvalidClientData("type field is empty".to_string()));
    }
    if !text_equal(parsed.type_.as_str(), expected_type) {
        return Err(
            WebAuthnError::InvalidClientData(
                join5(
                    "expected type \"",
                    expected_type,
                    "\", got \"",
                    parsed.type_.as_str(),
                    "\"",
                ),
            ),
        );
    }
    if !bytes_equal(parsed.challenge_bytes.as_slice(), expected_challenge) {
        return Err(WebAuthnError::ChallengeMismatch);
    }
    Ok(())
}

/// Validates parsed client data against a ceremony: type, challenge and origin, in this
/// order. Whether the client reports a cross-origin use is not looked at.
pub fn validate_client_data(
    parsed: &ParsedClientData,
    expected_type: &str,
    expected_challenge: &[u8],
    expected_origin: &str,
) -> (r: Result<(), WebAuthnError>)
    ensures
        outcome(r) == client_data_check(
            parsed@,
            expected_type@,
            expected_challenge@,
            expected_origin@,
        ),
{
    if let Err(e) = check_binding(parsed, expected_type, expected_challenge) {
        return Err(e);
    }
    if !text_equal(parsed.origin.as_str(), expected_origin) {
        return Err(
            WebAuthnError::OriginMismatch {
                expected: expected_origin.to_string(),
                got: parsed.origin.clone(),
            },
        );
    }
    Ok(())
}

/// A list of origins as one text.
pub open spec fn origin_list(origins: Seq<Seq<char>>) -> Seq<char>
    decreases origins.len(),
{
    if origins.len() == 0 {
        Seq::empty()
    } else if origins.len() == 1 {
        origins[0]
    } else {
        origin_list(origins.drop_last()) + ", "@ + origins.last()
    }
}

/// The check by a relying party's policy: type, challenge, one of the allowed origins,
/// and no cross-origin use where that is rejected, in this order.
pub open spec fn policy_check(
    parsed: ClientDataModel,
    expected_type: Seq<char>,
    expected_challenge: Seq<u8>,
    allowed_origins: Seq<Seq<char>>,
    reject_cross_origin: bool,
) -> Result<(), Failure> {
    match binding_check(parsed, expected_type, expected_challenge) {
        Err(failure) => Err(failure),
        Ok(_) => if !allowed_origins.contains(parsed.origin) {
            Err(
                Failure::OriginMismatch {
                    expected: origin_list(allowed_origins),
                    got: parsed.origin,
                },
            )
        } else if reject_cross_origin && parsed.cross_origin == Some(true) {
            Err(Failure::CrossOriginNotAllowed)
        } else {
            Ok(())
        },
    }
}

fn origin_list_text(origins: &Vec<String>) -> (s: String)
    ensures
        s@ == origin_list(texts(origins@)),
{
    let ghost all = texts(origins@);
    if origins.is_empty() {
        return String::new();
    }
    let mut s = origins[0].clone();
    let mut i: usize = 1;
    assert(all.take(1)[0] == origins@[0]@);
    while i < origins.len()
        invariant
            1 <= i <= origins@.len(),
            all == texts(origins@),
            s@ == origin_list(all.take(i as int)),
        decreases origins.len() - i,
    {
        let ghost longer = all.take(i + 1);
        assert(longer.drop_last() =~= all.take(i as int));
        assert(longer.last() == origins@[i as int]@);
        s = join3(s.as_str(), ", ", origins[i].as_str());
        i += 1;
    }
    assert(all.take(all.len() as int) =~= all);
    s
}

/// Validates parsed client data by a relying party's policy.
pub fn validate_with_policy(
    parsed: &ParsedClientData,
    expected_type: &str,
    expected_challenge: &[u8],
    allowed_origins: &Vec<String>,
    reject_cross_origin: bool,
) -> (r: Result<(), WebAuthnError>)
    ensures
        outcome(r) == policy_check(
            parsed@,
            expected_type@,
            expected_challenge@,
            texts(allowed_origins@),
            reject_cross_origin,
        ),
{
    if let Err(e) = check_binding(parsed, expected_type, expected_challenge) {
        return Err(e);
    }
    let ghost all = texts(allowed_origins@);
    let mut allowed = false;
    let mut i: usize = 0;
    while i < allowed_origins.len()
        invariant
            i <= allowed_origins@.len(),
            all == texts(allowed_origins@),
            allowed == exists|k: int| 0 <= k < i && #[trigger] all[k] == parsed.origin@,
        decreases allowed_origins.len() - i,
    {
        assert(all[i as int] == allowed_origins@[i as int]@);
        if text_equal(allowed_origins[i].as_str(), parsed.origin.as_str()) {
            allowed = true;
        }
        i += 1;
    }
    if !allowed {
        return Err(
            WebAuthnError::OriginMismatch {
                expected: origin_list_text(allowed_origins),
                got: parsed.origin.clone(),
            },
        );
    }
    if reject_cross_origin {
        if let Some(true) = parsed.cross_origin {
            return Err(WebAuthnError::CrossOriginNotAllowed);
        }
    }
    Ok(())
}

/// With one allowed origin and cross-origin use accepted, the policy check is the check
/// against that origin.
pub proof fn law_single_origin_policy(
    parsed: ClientDataModel,
    expected_type: Seq<char>,
    expected_challenge: Seq<u8>,
    origin: Seq<char>,
)
    ensures
        policy_check(parsed, expected_type, expected_challenge, seq![origin], false)
            == client_data_check(parsed, expected_type, expected_challenge, origin),
{
    assert(seq![origin].contains(parsed.origin) == (parsed.origin == origin)) by {
        assert(seq![origin][0] == origin);
    }
}

/// Client data that passes the policy check has the ceremony's type and challenge, an
/// allowed origin exactly as configured, and no rejected cross-origin use.
pub proof fn law_accepted_client_data_is_bound(
    parsed: ClientDataModel,
    expected_type: Seq<char>,
    expected_challenge: Seq<u8>,
    allowed_origins: Seq<Seq<char>>,
    reject_cross_origin: bool,
)
    ensures
        policy_check(
            parsed,
            expected_type,
            expected_challenge,
            allowed_origins,
            reject_cross_origin,
        ) is Ok <==> {
            &&& parsed.type_.len() > 0
            &&& parsed.type_ == expected_type
            &&& parsed.challenge_bytes == expected_challenge
            &&& allowed_origins.contains(parsed.origin)
            &&& !(reject_cross_origin && parsed.cross_origin == Some(true))
        },
{
}

/// Parsed client data keeps the bytes that it came from.
pub proof fn law_client_data_keeps_bytes(raw: Seq<u8>)
    ensures
        client_data(raw) matches Ok(parsed) ==> parsed.raw_json == raw,
{
}

/// Client data with a member that is not known stands for what it stands for without it,
/// but for the bytes that it came from: wherever the member is, and whatever its value is
/// written as.
pub proof fn law_unknown_members_of_client_data_are_skipped(
    with: Seq<u8>,
    without: Seq<u8>,
    before: Seq<Seq<u8>>,
    extra: Seq<u8>,
    after: Seq<Seq<u8>>,
)
    requires
        json_fault(with) is None,
        json_fault(without) is None,
        enclosed(with, 0x7B, 0x7D) matches Some(inner) && listed(inner) == before.push(extra)
            + after,
        enclosed(without, 0x7B, 0x7D) matches Some(inner) && listed(inner) == before + after,
        json_item(cut(extra, 0x3A)[0]) matches Ok(Item::Text(name)) && member_shape(
            Shape::ClientData,
            name,
        ) is None,
    ensures
        match (client_data(with), client_data(without)) {
            (Ok(a), Ok(b)) => a == (ClientDataModel { raw_json: with, ..b }),
            (Err(a), Err(b)) => a == b,
            _ => false,
        },
{
    law_unknown_members_are_skipped(with, without, before, extra, after, Shape::ClientData);
}

/// Members that are not known are ignored, wherever they stand.
pub proof fn law_unknown_members_are_ignored(
    before: Seq<(Item, Item)>,
    key: Seq<char>,
    value: Item,
    behind: Seq<(Item, Item)>,
)
    requires
        key != "type"@,
        key != "challenge"@,
        key != "origin"@,
        key != "crossOrigin"@,
    ensures
        raw_client_data(Item::Dict(before.push((Item::Text(key), value)) + behind))
            == raw_client_data(Item::Dict(before + behind)),
{
    let extra = (Item::Text(key), value);
    lemma_other_member(before, extra, behind, "type"@);
    lemma_other_member(before, extra, behind, "challenge"@);
    lemma_other_member(before, extra, behind, "origin"@);
    lemma_other_member(before, extra, behind, "crossOrigin"@);
}

/// The members of client data are read by name, each of which must stand once, but for
/// `crossOrigin`, which may be left out or null; or by place, out of an array of four. Nothing
/// else is client data.
pub proof fn law_client_data_members(v: Item, fields: RawClientModel)
    ensures
        raw_client_data(v) == Ok::<RawClientModel, Seq<char>>(fields) <==> match v {
            Item::Dict(m) => {
                &&& only_entry(m, "type"@, Item::Text(fields.type_))
                &&& only_entry(m, "challenge"@, Item::Text(fields.challenge))
                &&& only_entry(m, "origin"@, Item::Text(fields.origin))
                &&& match fields.cross_origin {
                    Some(b) => only_entry(m, "crossOrigin"@, Item::Bool(b)),
                    None => no_entry(m, "crossOrigin"@) || only_entry(
                        m,
                        "crossOrigin"@,
                        Item::Null,
                    ),
                }
            },
            Item::Array(a) => a == seq![
                Item::Text(fields.type_),
                Item::Text(fields.challenge),
                Item::Text(fields.origin),
                match fields.cross_origin {
                    Some(b) => Item::Bool(b),
                    None => Item::Null,
                },
            ],
            _ => false,
        },
{
    law_text_fields(v, "type"@, 0, fields.type_);
    law_text_fields(v, "challenge"@, 1, fields.challenge);
    law_text_fields(v, "origin"@, 2, fields.origin);
    match v {
        Item::Dict(m) => {
            law_members(m, "crossOrigin"@, Item::Null);
            if let Some(b) = fields.cross_origin {
                law_members(m, "crossOrigin"@, Item::Bool(b));
            }
            if no_entry(m, "crossOrigin"@) {
                assert(!repeats(v, "crossOrigin"@));
            }
        },
        Item::Array(a) => {
            let written = seq![
                Item::Text(fields.type_),
                Item::Text(fields.challenge),
                Item::Text(fields.origin),
                match fields.cross_origin {
                    Some(b) => Item::Bool(b),
                    None => Item::Null,
                },
            ];
            if raw_client_data(v) == Ok::<RawClientModel, Seq<char>>(fields) {
                assert(a =~= written);
            }
            if a == written {
                assert(a.len() == 4);
                assert(a[0] == Item::Text(fields.type_));
                assert(a[1] == Item::Text(fields.challenge));
                assert(a[2] == Item::Text(fields.origin));
                assert(a[3] == written[3]);
            }
        },
        _ => {},
    }
}

/// Client data is parsed exactly if its bytes are a JSON text that holds client data and a
/// challenge in base64url; the parsed data then holds the type, the origin and the
/// cross-origin flag as they are, the decoded challenge, and the bytes.
pub proof fn law_client_data_is_parsed(raw: Seq<u8>, parsed: ClientDataModel)
    ensures
        client_data(raw) == Ok::<ClientDataModel, Failure>(parsed) <==> {
            &&& raw.len() > 0
            &&& parsed.raw_json == raw
            &&& json_value(raw, Shape::ClientData) matches Ok(v) && {
                raw_client_data(v) matches Ok(fields) && {
                    &&& parsed.type_ == fields.type_
                    &&& parsed.origin == fields.origin
                    &&& parsed.cross_origin == fields.cross_origin
                    &&& base64_bytes(Alphabet::UrlSafeNoPad, encode_utf8(fields.challenge)) == Ok::<
                        Seq<u8>,
                        Seq<char>,
                    >(parsed.challenge_bytes)
                }
            }
        },
        client_data(raw) matches Err(failure) ==> {
            ||| failure is InvalidClientData && (raw.len() == 0 || !(json_value(
                raw,
                Shape::ClientData,
            ) matches Ok(v) && raw_client_data(v) is Ok))
            ||| failure is Base64DecodeError && (json_value(raw, Shape::ClientData) matches Ok(v)
                && (raw_client_data(v) matches Ok(fields) && base64_bytes(
                Alphabet::UrlSafeNoPad,
                encode_utf8(fields.challenge),
            ) is Err))
        },
{
}

/// How client data is refused, in the order of the checks: type, challenge, origin, and a
/// cross-origin use that is not allowed.
pub proof fn law_client_data_failures(
    parsed: ClientDataModel,
    expected_type: Seq<char>,
    expected_challenge: Seq<u8>,
    allowed_origins: Seq<Seq<char>>,
    reject_cross_origin: bool,
)
    ensures
        ({
            let checked = policy_check(
                parsed,
                expected_type,
                expected_challenge,
                allowed_origins,
                reject_cross_origin,
            );
            if parsed.type_ != expected_type || parsed.type_.len() == 0 {
                checked matches Err(failure) && failure is InvalidClientData
            } else if parsed.challenge_bytes != expected_challenge {
                checked == Err::<(), Failure>(Failure::ChallengeMismatch)
            } else if !allowed_origins.contains(parsed.origin) {
                checked matches Err(Failure::OriginMismatch { expected, got }) && got
                    == parsed.origin && expected == origin_list(allowed_origins)
            } else if reject_cross_origin && parsed.cross_origin == Some(true) {
                checked == Err::<(), Failure>(Failure::CrossOriginNotAllowed)
            } else {
                checked == Ok::<(), Failure>(())
            }
        }),
        ({
            let checked = client_data_check(
                parsed,
                expected_type,
                expected_challenge,
                parsed.origin,
            );
            if parsed.type_ != expected_type || parsed.type_.len() == 0 {
                checked matches Err(failure) && failure is InvalidClientData
            } else if parsed.challenge_bytes != expected_challenge {
                checked == Err::<(), Failure>(Failure::ChallengeMismatch)
            } else {
                checked == Ok::<(), Failure>(())
            }
        }),
        forall|origin: Seq<char>|
            parsed.type_ == expected_type && parsed.type_.len() > 0 && parsed.challenge_bytes
                == expected_challenge && origin != parsed.origin ==> #[trigger] client_data_check(
                parsed,
                expected_type,
                expected_challenge,
                origin,
            ) == Err::<(), Failure>(
                Failure::OriginMismatch { expected: origin, got: parsed.origin },
            ),
{
}

/// A list of origins is written with commas between them.
pub proof fn law_origin_lists(origins: Seq<Seq<char>>, more: Seq<char>)
    ensures
        origin_list(Seq::empty()) == Seq::<char>::empty(),
        origin_list(seq![more]) == more,
        origins.len() > 0 ==> origin_list(origins.push(more)) == origin_list(origins) + ", "@
            + more,
{
    assert(origins.push(more).drop_last() =~= origins);
}

} // verus!
