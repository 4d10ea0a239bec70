# miband_totp

The logic of an AstroBox plugin that pushes TOTP accounts to the
`com.xw.mibandtotp` quick app of a Xiaomi band, written in Verus and
verified.

- `src/` — the verified library:
  - `text`, `percent`, `encoding`: characters, trimming, splitting,
    percent-encoding and UTF-8 facts;
  - `uri`: `otpauth://totp/` URIs and their query parameters;
  - `proto`, `base32`, `migration`: Google Authenticator export URIs
    (Base64 payload, protobuf records, Base32 keys);
  - `json`: the JSON messages of the watch application;
  - `input`, `payload`, `totp`: the text the user enters, the accounts it
    gives, the backup text and the push message;
  - `qr`: reading QR codes from image files;
  - `ui`, `flow`: the screen state and each step of the plugin's
    operations, from state and host answer to new state and next host call;
  - `reimport`: the proof that the text of a backup reads back as the same
    accounts.
- `tests/` — tests on concrete values.
- `app/` — the host side: a `Host` trait for the AstroBox calls, the
  shared screen state, and the loops that perform the host calls each
  operation asks for.
