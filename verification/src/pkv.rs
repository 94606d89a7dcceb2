//! Key naming for a browser-storage backed key-value store.
//!
//! Every key that the store writes is the store's prefix followed by the
//! caller's key; the prefix is derived from the application's identity.

use vstd::prelude::*;
use crate::text::{push_char, push_str, starts_with};

verus! {

/// The identity of an application, from which storage locations are derived.
pub struct PlatformDefault {
    pub qualifier: Option<String>,
    pub organization: String,
    pub application: String,
}

/// Where a store keeps its data.
pub enum Location {
    /// A path chosen by the caller.
    CustomPath(String),
    /// The platform's usual place for the given application.
    PlatformDefault(PlatformDefault),
}

/// The key prefix of an application: `qualifier.organization.application`,
/// or `organization.application` when there is no qualifier.
pub open spec fn platform_prefix(config: PlatformDefault) -> Seq<char> {
    match config.qualifier {
        Some(q) => q@ + seq!['.'] + config.organization@ + seq!['.'] + config.application@,
        None => config.organization@ + seq!['.'] + config.application@,
    }
}

/// The keys among `keys` that begin with `prefix`, in their order.
pub open spec fn keys_with_prefix(keys: Seq<Seq<char>>, prefix: Seq<char>) -> Seq<Seq<char>>
    decreases keys.len(),
{
    if keys.len() == 0 {
        Seq::empty()
    } else {
        let rest = keys_with_prefix(keys.drop_last(), prefix);
        if prefix.is_prefix_of(keys.last()) {
            rest.push(keys.last())
        } else {
            rest
        }
    }
}

/// A key-value store kept in the browser's local storage; all its keys share
/// one prefix so that several applications can share the storage.
pub struct LocalStorageStore {
    prefix: String,
}

impl LocalStorageStore {
    /// The prefix of every key this store writes.
    pub closed spec fn key_prefix(&self) -> Seq<char> {
        self.prefix@
    }

    /// A store for the given application.
    pub fn new(constructor_bundle: Location) -> (store: Self)
        requires
            constructor_bundle is PlatformDefault,
        ensures
            store.key_prefix() == platform_prefix(constructor_bundle->PlatformDefault_0),
    {
        match constructor_bundle {
            Location::PlatformDefault(config) => {
                let PlatformDefault { qualifier, organization, application } = config;
                let mut prefix = String::new();
                match &qualifier {
                    Some(q) => {
                        push_str(&mut prefix, q.as_str());
                        push_char(&mut prefix, '.');
                    },
                    None => {},
                }
                push_str(&mut prefix, organization.as_str());
                push_char(&mut prefix, '.');
                push_str(&mut prefix, application.as_str());
                proof {
                    let c = PlatformDefault { qualifier, organization, application };
                    match qualifier {
                        Some(q) => {
                            assert(prefix@ =~= platform_prefix(c));
                        },
                        None => {
                            assert(prefix@ =~= platform_prefix(c));
                        },
                    }
                }
                LocalStorageStore { prefix }
            },
            Location::CustomPath(_) => {
                LocalStorageStore { prefix: String::new() }
            },
        }
    }

    /// The storage key under which `key` is kept: the prefix followed by `key`.
    pub fn format_key(&self, key: &str) -> (formatted: String)
        ensures
            formatted@ == self.key_prefix() + key@,
    {
        let mut formatted = self.prefix.clone();
        push_str(&mut formatted, key);
        formatted
    }

    /// Whether a storage key belongs to this store.
    pub fn owns_key(&self, key: &str) -> (owned: bool)
        ensures
            owned == self.key_prefix().is_prefix_of(key@),
    {
        starts_with(key, self.prefix.as_str())
    }

    /// The keys that clearing the store removes from a storage holding
    /// `keys`: those that begin with the store's prefix, in storage order.
    pub fn keys_to_clear(&self, keys: &Vec<String>) -> (doomed: Vec<String>)
        ensures
            doomed@.map_values(|k: String| k@) == keys_with_prefix(
                keys@.map_values(|k: String| k@),
                self.key_prefix(),
            ),
    {
        let mut doomed: Vec<String> = Vec::new();
        let ghost views = keys@.map_values(|k: String| k@);
        let mut i: usize = 0;
        while i < keys.len()
            invariant
                i <= keys.len(),
                views == keys@.map_values(|k: String| k@),
                doomed@.map_values(|k: String| k@) == keys_with_prefix(
                    views.take(i as int),
                    self.key_prefix(),
                ),
            decreases keys.len() - i,
        {
            proof {
                assert(views.take(i + 1).drop_last() =~= views.take(i as int));
                assert(views.take(i + 1).last() == keys@[i as int]@);
            }
            if self.owns_key(keys[i].as_str()) {
                let k = keys[i].clone();
                let ghost before = doomed@;
                doomed.push(k);
                proof {
                    assert(doomed@.map_values(|k: String| k@) =~= before.map_values(
                        |k: String| k@,
                    ).push(keys@[i as int]@));
                }
            }
            i = i + 1;
        }
        proof {
            assert(views.take(keys.len() as int) =~= views);
        }
        doomed
    }
}


/// Every key the store writes begins with its prefix, so clearing the store
/// removes it.
pub proof fn lemma_written_keys_are_cleared(prefix: Seq<char>, key: Seq<char>)
    ensures
        prefix.is_prefix_of(prefix + key),
{
    assert((prefix + key).subrange(0, prefix.len() as int) =~= prefix);
}

/// Clearing removes exactly the keys that begin with the prefix.
pub proof fn lemma_clear_removes_exactly_own_keys(keys: Seq<Seq<char>>, prefix: Seq<char>)
    ensures
        forall|k: Seq<char>|
            #[trigger] keys_with_prefix(keys, prefix).contains(k) <==> (keys.contains(k)
                && prefix.is_prefix_of(k)),
    decreases keys.len(),
{
    if keys.len() > 0 {
        let rest = keys.drop_last();
        lemma_clear_removes_exactly_own_keys(rest, prefix);
        assert forall|k: Seq<char>| #[trigger] keys.contains(k) <==> (rest.contains(k) || k
            == keys.last()) by {
            if keys.contains(k) {
                let i = choose|i: int| 0 <= i < keys.len() && keys[i] == k;
                if i < keys.len() - 1 {
                    assert(rest[i] == k);
                }
            }
            if rest.contains(k) {
                let i = choose|i: int| 0 <= i < rest.len() && rest[i] == k;
                assert(keys[i] == k);
            }
            if k == keys.last() {
                assert(keys[keys.len() - 1] == k);
            }
        }
        let r = keys_with_prefix(rest, prefix);
        if prefix.is_prefix_of(keys.last()) {
            assert forall|k: Seq<char>| #[trigger] r.push(keys.last()).contains(k) <==> (
            r.contains(k) || k == keys.last()) by {
                if r.push(keys.last()).contains(k) {
                    let i = choose|i: int| 0 <= i < r.len() + 1 && r.push(keys.last())[i] == k;
                    if i < r.len() {
                        assert(r[i] == k);
                    }
                }
                if r.contains(k) {
                    let i = choose|i: int| 0 <= i < r.len() && r[i] == k;
                    assert(r.push(keys.last())[i] == k);
                }
                if k == keys.last() {
                    assert(r.push(keys.last())[r.len() as int] == k);
                }
            }
        }
    }
}


/// The lower-case hexadecimal digit of `d` (below 16).
pub open spec fn hex_digit(d: u32) -> char {
    seq!['0', '1', '2', '3', '4', '5', '6', '7', '8', '9', 'a', 'b', 'c', 'd', 'e', 'f'][d as int]
}

/// How a character stands in a JSON string: a quote and a backslash behind
/// a backslash; backspace, tab, line feed, form feed and carriage return as
/// `\b`, `\t`, `\n`, `\f` and `\r`; any other control character below
/// U+0020 as `\u00` and two lower-case hexadecimal digits; every other
/// character as itself.
pub open spec fn json_escaped_char(c: char) -> Seq<char> {
    if c == '"' {
        seq!['\\', '"']
    } else if c == '\\' {
        seq!['\\', '\\']
    } else if c == '\u{8}' {
        seq!['\\', 'b']
    } else if c == '\t' {
        seq!['\\', 't']
    } else if c == '\n' {
        seq!['\\', 'n']
    } else if c == '\u{c}' {
        seq!['\\', 'f']
    } else if c == '\r' {
        seq!['\\', 'r']
    } else if (c as u32) < 0x20 {
        seq!['\\', 'u', '0', '0', hex_digit((c as u32) / 16), hex_digit((c as u32) % 16)]
    } else {
        seq![c]
    }
}

/// The characters of `value`, each as it stands in a JSON string.
pub open spec fn json_escaped(value: Seq<char>) -> Seq<char>
    decreases value.len(),
{
    if value.len() == 0 {
        Seq::empty()
    } else {
        json_escaped(value.drop_last()) + json_escaped_char(value.last())
    }
}

/// The JSON text of a string: its escaped characters between double quotes.
pub open spec fn json_string(value: Seq<char>) -> Seq<char> {
    seq!['"'] + json_escaped(value) + seq!['"']
}

/// Encodes a string as JSON with `serde_json::to_string`. The encoder
/// always succeeds on a string: `serialize_str` writes through
/// `format_escaped_str` into a `Vec<u8>`, whose writes never fail, and no
/// other error arises on that path. `format_escaped_str` writes the quotes
/// around the text and escapes each byte by its `ESCAPE` table, which is
/// what [`json_escaped_char`] states: only bytes below 0x20, the quote and
/// the backslash are escaped, so the bytes of a character outside ASCII
/// pass unchanged.
#[verifier::external_body]
fn to_json_string(value: &str) -> (json: Option<String>)
    ensures
        json is Some,
        json matches Some(j) ==> j@ == json_string(value@),
{
    serde_json::to_string(value).ok()
}

impl LocalStorageStore {
    /// The storage key and stored text for saving the string `value` under
    /// `key`: the formatted key and the JSON text of the value. Encoding a
    /// string never fails, so there always is an entry.
    pub fn string_entry(&self, key: &str, value: &str) -> (entry: Option<(String, String)>)
        ensures
            entry is Some,
            entry matches Some(e) ==> e.0@ == self.key_prefix() + key@ && e.1@ == json_string(
                value@,
            ),
    {
        match to_json_string(value) {
            Some(json) => Some((self.format_key(key), json)),
            None => None,
        }
    }
}

} // verus!
