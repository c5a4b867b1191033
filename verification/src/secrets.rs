//! The secrets store: where it comes from, what makes it unusable, and how it is read.
//!
//! The store is a TOML table of strings, encrypted with `age` to x25519 identities. A store
//! that is not configured or not there counts as empty; one that is there and cannot be
//! read is an error, never an empty store.

use crate::text::str_eq;
use std::io::Read;
use vstd::prelude::*;

verus! {

use crate::text::{begins_with, digit_of, opt_view};
use vstd::utf8::{decode_utf8, valid_utf8};

/// How a store is loaded.
#[derive(Clone, Copy, Debug, PartialEq, Eq, Structural)]
pub enum LoadStep {
    /// There is none: run without secrets.
    Empty,
    /// It is there, and so is its key.
    Read,
}

/// How a store is loaded, from what is configured and what is there.
pub open spec fn load_step(
    age_path: Option<Seq<char>>,
    key_path: Option<Seq<char>>,
    age_there: bool,
    key_there: bool,
) -> core::result::Result<LoadStep, Seq<char>> {
    match (age_path, key_path) {
        (Some(a), Some(k)) => if !age_there {
            Ok(LoadStep::Empty)
        } else if !key_there {
            Err("secrets file present at "@ + a + " but key file missing at "@ + k)
        } else {
            Ok(LoadStep::Read)
        },
        _ => Ok(LoadStep::Empty),
    }
}

/// How a store is loaded, from what is configured and what is there.
pub fn plan_load(
    age_path: Option<&str>,
    key_path: Option<&str>,
    age_there: bool,
    key_there: bool,
) -> (r: core::result::Result<LoadStep, String>)
    ensures
        match (
            r,
            load_step(
                opt_view(age_path),
                opt_view(key_path),
                age_there,
                key_there,
            ),
        ) {
            (Ok(a), Ok(b)) => a == b,
            (Err(a), Err(b)) => a@ == b,
            _ => false,
        },
{
    match (age_path, key_path) {
        (Some(a), Some(k)) => if !age_there {
            Ok(LoadStep::Empty)
        } else if !key_there {
            Err(
                "secrets file present at ".to_owned().concat(a).concat(
                    " but key file missing at ",
                ).concat(k),
            )
        } else {
            Ok(LoadStep::Read)
        },
        _ => Ok(LoadStep::Empty),
    }
}

/// Octal notation of a number, without leading zeros.
pub open spec fn octal(n: nat) -> Seq<char>
    decreases n,
{
    if n < 8 {
        seq![digit_of(n)]
    } else {
        octal(n / 8).push(digit_of(n % 8))
    }
}

fn octal_string(n: u32) -> (r: String)
    ensures
        r@ == octal(n as nat),
    decreases n,
{
    let mut out: String = if n < 8 {
        String::new()
    } else {
        octal_string(n / 8)
    };
    let c: char = (48u8 + (n % 8) as u8) as char;
    out.push(c);
    assert(out@ =~= octal(n as nat));
    out
}

/// Accepts the mode of a key file: nobody but its owner may have access to it.
pub fn check_key_mode(key_path: &str, mode: u32) -> (r: core::result::Result<(), String>)
    ensures
        r is Ok == (mode & 0x3f == 0),
        r is Err ==> r->Err_0@ == "secrets.key "@ + key_path@
            + " is group/other-accessible (mode "@ + octal((mode & 0xfff) as nat)
            + "); chmod 0400"@,
{
    if mode & 0x3f != 0 {
        return Err(
            "secrets.key ".to_owned().concat(key_path).concat(
                " is group/other-accessible (mode ",
            ).concat(octal_string(mode & 0xfff).as_str()).concat("); chmod 0400"),
        );
    }
    Ok(())
}

/// `age::x25519::Identity`, a private key.
#[verifier::external_type_specification]
#[verifier::external_body]
pub struct ExIdentity(age::x25519::Identity);

/// The private keys in the text of a key file, if it is one.
pub uninterp spec fn identities_in(text: Seq<char>) -> Option<Seq<age::x25519::Identity>>;

/// `age::IdentityFile::from_buffer`: the native keys of a key file, which depend on its text
/// alone. What an error says is left unsaid: its words come from a localization.
#[verifier::external_body]
fn read_identities(text: &str) -> (r: core::result::Result<Vec<age::x25519::Identity>, String>)
    ensures
        match r {
            Ok(v) => identities_in(text@) == Some(v@),
            Err(_) => identities_in(text@) is None,
        },
{
    let file = age::IdentityFile::from_buffer(text.as_bytes()).map_err(|e| e.to_string())?;
    Ok(
        file.into_identities().into_iter().map(
            |e| match e {
                age::IdentityFileEntry::Native(id) => id,
            },
        ).collect(),
    )
}

/// The step at which a decryption fails.
#[derive(Clone, Copy, Debug, PartialEq, Eq, Structural)]
pub enum AgeStep {
    /// The blob is no age file.
    Header,
    /// The blob is encrypted with a passphrase.
    Passphrase,
    /// No key fits.
    Decrypt,
    /// The payload is damaged.
    Payload,
}

/// What a blob holds under some keys, or the step at which its decryption fails.
pub uninterp spec fn plaintext_of(
    ids: Seq<age::x25519::Identity>,
    blob: Seq<u8>,
) -> core::result::Result<Seq<u8>, AgeStep>;

/// `age::Decryptor::new`, `RecipientsDecryptor::decrypt` and the reader that it gives: the
/// plaintext, or the step at which there is none, depends on the keys and the blob alone.
/// What an error says is left unsaid: its words come from a localization.
#[verifier::external_body]
fn decrypt(ids: &Vec<age::x25519::Identity>, blob: &[u8]) -> (r: core::result::Result<
    Vec<u8>,
    (AgeStep, String),
>)
    ensures
        match (r, plaintext_of(ids@, blob@)) {
            (Ok(a), Ok(b)) => a@ == b,
            (Err(a), Err(b)) => a.0 == b,
            _ => false,
        },
{
    let d = match age::Decryptor::new(blob).map_err(|e| (AgeStep::Header, e.to_string()))? {
        age::Decryptor::Recipients(d) => d,
        age::Decryptor::Passphrase(_) => return Err((AgeStep::Passphrase, String::new())),
    };
    let keys = ids.iter().map(|i| i as &dyn age::Identity);
    let mut reader = d.decrypt(keys).map_err(|e| (AgeStep::Decrypt, e.to_string()))?;
    let mut out = Vec::new();
    reader.read_to_end(&mut out).map_err(|e| (AgeStep::Payload, e.to_string()))?;
    Ok(out)
}

/// The text that some bytes spell in UTF-8, if they spell one.
pub open spec fn utf8_text(bytes: Seq<u8>) -> Option<Seq<char>> {
    if valid_utf8(bytes) {
        Some(decode_utf8(bytes))
    } else {
        None
    }
}

/// `String::from_utf8`: the text that the bytes spell, where they are valid UTF-8.
#[verifier::external_body]
pub(crate) fn from_utf8(bytes: Vec<u8>) -> (r: Option<String>)
    ensures
        match r {
            Some(s) => utf8_text(bytes@) == Some(s@),
            None => utf8_text(bytes@) is None,
        },
{
    String::from_utf8(bytes).ok()
}

/// A value of a TOML table: a string, or the name of another type.
#[derive(Debug)]
pub enum TomlItem {
    Text(String),
    Other(String),
}

/// The entries of the TOML table that a text spells, if it spells one.
pub uninterp spec fn toml_entries(text: Seq<char>) -> Option<Seq<(String, TomlItem)>>;

/// `toml::from_str` into a `toml::Table`: the entries, or their absence, depend on the text
/// alone.
#[verifier::external_body]
fn read_toml(text: &str) -> (r: Option<Vec<(String, TomlItem)>>)
    ensures
        match r {
            Some(v) => toml_entries(text@) == Some(v@),
            None => toml_entries(text@) is None,
        },
{
    let table: toml::Table = toml::from_str(text).ok()?;
    Some(
        table.into_iter().map(
            |e| match e.1 {
                toml::Value::String(s) => (e.0, TomlItem::Text(s)),
                other => (e.0, TomlItem::Other(other.type_str().to_owned())),
            },
        ).collect(),
    )
}

/// The first entry that is no string, or the number of entries.
pub open spec fn first_other(entries: Seq<(String, TomlItem)>) -> int
    decreases entries.len(),
{
    if entries.len() == 0 {
        0
    } else if entries[0].1 is Other {
        0
    } else {
        1 + first_other(entries.skip(1))
    }
}

/// The names and values of a table of strings.
pub open spec fn are_pairs(out: Seq<(String, String)>, entries: Seq<(String, TomlItem)>) -> bool {
    &&& out.len() == entries.len()
    &&& forall|i: int|
        0 <= i < out.len() ==> (#[trigger] out[i]).0 == entries[i].0 && entries[i].1
            == TomlItem::Text(out[i].1)
}

/// The secrets of a table, or the complaint about the first value that is no string.
pub open spec fn is_store(
    r: core::result::Result<Vec<(String, String)>, String>,
    entries: Seq<(String, TomlItem)>,
) -> bool {
    let k = first_other(entries);
    if k == entries.len() {
        r is Ok && are_pairs(r->Ok_0@, entries)
    } else {
        r is Err && r->Err_0@ == "secret "@ + entries[k].0@ + " must be a string, got "@
            + entries[k].1->Other_0@
    }
}

proof fn lemma_first_other(entries: Seq<(String, TomlItem)>, k: int)
    requires
        0 <= k <= entries.len(),
        forall|i: int| 0 <= i < k ==> !((#[trigger] entries[i]).1 is Other),
        k < entries.len() ==> entries[k].1 is Other,
    ensures
        first_other(entries) == k,
    decreases k,
{
    if k > 0 {
        let rest = entries.skip(1);
        assert forall|i: int| 0 <= i < k - 1 implies !((#[trigger] rest[i]).1 is Other) by {
            assert(rest[i] == entries[i + 1]);
        }
        lemma_first_other(rest, k - 1);
    }
}

/// The secrets of a table: every value has to be a string. The values are moved, so that no
/// copy of a secret stays behind.
pub fn collect_secrets(entries: Vec<(String, TomlItem)>) -> (r: core::result::Result<
    Vec<(String, String)>,
    String,
>)
    ensures
        is_store(r, entries@),
{
    let ghost all = entries@;
    let mut i: usize = 0;
    while i < entries.len()
        invariant
            i <= entries.len(),
            entries@ == all,
            forall|k: int| 0 <= k < i ==> !((#[trigger] all[k]).1 is Other),
        decreases entries.len() - i,
    {
        match &entries[i].1 {
            TomlItem::Text(_) => {},
            TomlItem::Other(kind) => {
                proof {
                    lemma_first_other(all, i as int);
                }
                return Err(
                    "secret ".to_owned().concat(entries[i].0.as_str()).concat(
                        " must be a string, got ",
                    ).concat(kind.as_str()),
                );
            },
        }
        i = i + 1;
    }
    proof {
        lemma_first_other(all, i as int);
    }
    let mut rest: Vec<(String, TomlItem)> = entries;
    let mut out: Vec<(String, String)> = Vec::new();
    while rest.len() > 0
        invariant
            rest@.len() <= all.len(),
            rest@ == all.take(rest@.len() as int),
            forall|k: int| 0 <= k < all.len() ==> !((#[trigger] all[k]).1 is Other),
            out@.len() == all.len() - rest@.len(),
            forall|k: int|
                0 <= k < out@.len() ==> (#[trigger] out@[k]).0 == all[k + rest@.len()].0 && all[k
                    + rest@.len()].1 == TomlItem::Text(out@[k].1),
        decreases rest.len(),
    {
        match rest.pop() {
            Some((name, item)) => match item {
                TomlItem::Text(s) => {
                    out.insert(0, (name, s));
                },
                TomlItem::Other(_) => {},
            },
            None => {},
        }
    }
    assert(are_pairs(out@, all));
    Ok(out)
}

/// The secrets in a decrypted store, or why it is unusable.
pub open spec fn is_plain_store(
    r: core::result::Result<Vec<(String, String)>, String>,
    plaintext: Seq<u8>,
) -> bool {
    match utf8_text(plaintext) {
        None => r is Err && r->Err_0@ == "secrets not UTF-8"@,
        Some(text) => match toml_entries(text) {
            None => r is Err && r->Err_0@ == "parse secrets toml"@,
            Some(entries) => is_store(r, entries),
        },
    }
}

/// The secrets in a store, or why it is unusable. The words of the decryption itself follow
/// a fixed beginning.
pub open spec fn is_opened(
    r: core::result::Result<Vec<(String, String)>, String>,
    key_text: Seq<char>,
    key_path: Seq<char>,
    blob: Seq<u8>,
) -> bool {
    match identities_in(key_text) {
        None => r is Err && begins_with(r->Err_0@, "parse age identities: "@),
        Some(ids) => if ids.len() == 0 {
            r is Err && r->Err_0@ == "no x25519 identities in "@ + key_path
        } else {
            match plaintext_of(ids, blob) {
                Err(AgeStep::Header) => r is Err && begins_with(r->Err_0@, "age decryptor: "@),
                Err(AgeStep::Passphrase) => r is Err && r->Err_0@
                    == "passphrase-encrypted secrets are not supported"@,
                Err(AgeStep::Decrypt) => r is Err && begins_with(r->Err_0@, "age decrypt: "@),
                Err(AgeStep::Payload) => r is Err && r->Err_0@ == "read decrypted secrets"@,
                Ok(plaintext) => is_plain_store(r, plaintext),
            }
        },
    }
}

fn prefixed(prefix: &str, rest: &str) -> (r: String)
    ensures
        begins_with(r@, prefix@),
{
    let r: String = prefix.to_owned().concat(rest);
    assert(r@.take(prefix@.len() as int) =~= prefix@);
    r
}

/// The secrets in a decrypted store.
pub fn read_store(plaintext: Vec<u8>) -> (r: core::result::Result<Vec<(String, String)>, String>)
    ensures
        is_plain_store(r, plaintext@),
{
    let text: String = match from_utf8(plaintext) {
        Some(s) => s,
        None => {
            return Err("secrets not UTF-8".to_owned());
        },
    };
    match read_toml(text.as_str()) {
        Some(entries) => collect_secrets(entries),
        None => Err("parse secrets toml".to_owned()),
    }
}

/// Decrypts a store with the keys of a key file and reads it.
pub fn open_store(key_text: &str, key_path: &str, blob: &[u8]) -> (r: core::result::Result<
    Vec<(String, String)>,
    String,
>)
    ensures
        is_opened(r, key_text@, key_path@, blob@),
{
    let ids: Vec<age::x25519::Identity> = match read_identities(key_text) {
        Ok(v) => v,
        Err(e) => {
            return Err(prefixed("parse age identities: ", e.as_str()));
        },
    };
    if ids.len() == 0 {
        return Err("no x25519 identities in ".to_owned().concat(key_path));
    }
    match decrypt(&ids, blob) {
        Ok(plaintext) => read_store(plaintext),
        Err((step, e)) => match step {
            AgeStep::Header => Err(prefixed("age decryptor: ", e.as_str())),
            AgeStep::Passphrase => Err(
                "passphrase-encrypted secrets are not supported".to_owned(),
            ),
            AgeStep::Decrypt => Err(prefixed("age decrypt: ", e.as_str())),
            AgeStep::Payload => Err("read decrypted secrets".to_owned()),
        },
    }
}

/// Where a secret stands among the names, or the complaint that it is missing.
pub fn require_slot(names: &Vec<String>, key: &str) -> (r: core::result::Result<usize, String>)
    ensures
        match r {
            Ok(i) => i < names@.len() && names@[i as int]@ == key@ && forall|j: int|
                0 <= j < i ==> (#[trigger] names@[j])@ != key@,
            Err(e) => e@ == "missing secret: "@ + key@ && forall|j: int|
                0 <= j < names@.len() ==> (#[trigger] names@[j])@ != key@,
        },
{
    let mut i: usize = 0;
    while i < names.len()
        invariant
            i <= names.len(),
            forall|j: int| 0 <= j < i ==> (#[trigger] names@[j])@ != key@,
        decreases names.len() - i,
    {
        if str_eq(names[i].as_str(), key) {
            return Ok(i);
        }
        i = i + 1;
    }
    Err("missing secret: ".to_owned().concat(key))
}

/// A store that is there is read or is an error: it never counts as empty.
pub proof fn law_present_store_is_not_empty(age_path: Seq<char>, key_path: Seq<char>, key_there: bool)
    ensures
        load_step(Some(age_path), Some(key_path), true, key_there) != Ok::<LoadStep, Seq<char>>(
            LoadStep::Empty,
        ),
{
}

} // verus!
