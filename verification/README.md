# webauthn

The relying-party side of WebAuthn (passkeys), verified with Verus: registration and
authentication ceremonies, attestation statements (`packed`, `fido-u2f`, `android-key`,
`apple`, `tpm`) and the FIDO metadata service. ES256, ES384, EdDSA and RS256 credentials are
supported.

## What is proved

The functions of the library state what they return, down to the text of each error, and
never panic. Those that read the clock or draw random bytes state what holds whatever came
back, and hand it to a function that states the rest: `Challenge::is_expired_at`,
`credential::challenge_from`, `RelyingParty::register`, `RelyingParty::authenticate` and the
options functions that take a challenge. The laws say what holds of the whole, among them:

- a registration or an assertion is accepted exactly if it fulfils every condition
  (`laws::law_registration_accepts_valid_responses`,
  `laws::law_authentication_accepts_valid_assertions`);
- a replayed assertion is rejected, and a sign count never falls
  (`laws::law_counts_that_do_not_rise_are_rejected`, `laws::law_sign_count_rises`);
- where single use is enforced, a challenge is consumed as soon as the client data has been
  accepted, and is never accepted again by any relying party that consumes from the same set
  (`laws::law_accepted_challenges_are_consumed`, `laws::law_challenges_are_used_once`);
- a ceremony is accepted only within five minutes of its challenge
  (`laws::law_accepted_challenges_are_in_time`);
- members of client data that are not known are skipped, whatever they hold
  (`client_data::law_unknown_members_of_client_data_are_skipped`);
- what is written in DER, in TPM structures or in authenticator data reads back.

## What is trusted

Hashes, signatures and random numbers come from `ring`, CBOR from `ciborium`, JSON from
`serde_json`, base64 from `base64`, certificates from `x509_parser`, and the time from the
standard library. Each call stands in a small function of its own whose contract says what is
taken for granted. What such a call computes has a name in the contracts (`sha256_of`,
`signature_valid`, `cbor_item`, `json_item`, `json_fault`, `base64_bytes`, `certificate_of`,
`signed_by`, `age_between`), and the functions that take its result as an argument are pinned
down without it.

## Layout

| Module | Contents |
|--------|----------|
| `registration`, `authentication` | the relying party and its ceremonies |
| `laws` | what holds of ceremonies as a whole |
| `attestation`, `tpm`, `x509`, `der` | attestation statements and what they are made of |
| `authenticator_data`, `client_data`, `extensions` | the client's response |
| `metadata` | status reports of authenticator models |
| `credential`, `challenge`, `used_challenges`, `options` | what is stored and what is sent |
| `data`, `json`, `encoding`, `crypto` | CBOR and JSON items, base64, cryptography |
| `bytes`, `text`, `error`, `algorithm` | the rest |

`app/` holds what surrounds the library: serde copies of its types, its errors as standard
errors, and relying parties that share a set of consumed challenges across threads.
