//! The record of where each known vault is stored, and its byte encoding.
//!
//! The record is encoded as the number of vaults followed by, for each
//! vault, its name and its path, each as a text.

use vstd::bytes::spec_u64_to_le_bytes;
use vstd::prelude::*;
use vstd::utf8::encode_utf8;

use crate::error::VaultError;
use crate::name_map::{collected, lemma_put_named, names_of, put_named, NameMap, Named};
use crate::wire::{
    lemma_parse_text_reads, lemma_parse_text_written, lemma_parse_u64_reads,
    lemma_parse_u64_written, parse_text, parse_u64, put_text, put_u64, take_text, take_u64,
    text_bytes,
};

verus! {

/// The path of a vault together with the name of the vault.
pub type Location = Named<Seq<char>>;

/// Whether the name and the path of a location fit a frame.
pub open spec fn location_fits(l: Location) -> bool {
    &&& encode_utf8(l.name).len() <= u64::MAX
    &&& encode_utf8(l.value).len() <= u64::MAX
}

/// Whether locations can be encoded: their number and every text fit.
pub open spec fn locations_fit(ls: Seq<Location>) -> bool {
    &&& ls.len() <= u64::MAX
    &&& forall|i: int| 0 <= i < ls.len() ==> location_fits(#[trigger] ls[i])
}

/// The encoding of one location.
pub open spec fn location_bytes(l: Location) -> Seq<u8> {
    text_bytes(l.name) + text_bytes(l.value)
}

/// The encodings of locations, one after the other.
pub open spec fn locations_bytes(ls: Seq<Location>) -> Seq<u8>
    decreases ls.len(),
{
    if ls.len() == 0 {
        Seq::empty()
    } else {
        locations_bytes(ls.drop_last()) + location_bytes(ls.last())
    }
}

/// The encoding of the record: the number of locations, then the locations.
pub open spec fn config_bytes(ls: Seq<Location>) -> Seq<u8> {
    spec_u64_to_le_bytes(ls.len() as u64) + locations_bytes(ls)
}

/// Reads one location from the front of the input.
pub open spec fn parse_location(input: Seq<u8>) -> Option<(Location, Seq<u8>)> {
    match parse_text(input) {
        None => None,
        Some((name, after_name)) => match parse_text(after_name) {
            None => None,
            Some((path, rest)) => Some((Named { name, value: path }, rest)),
        },
    }
}

/// Reads a given number of locations from the front of the input.
pub open spec fn parse_locations(input: Seq<u8>, n: nat) -> Option<(Seq<Location>, Seq<u8>)>
    decreases n,
{
    if n == 0 {
        Some((Seq::empty(), input))
    } else {
        match parse_locations(input, (n - 1) as nat) {
            None => None,
            Some((ls, after)) => match parse_location(after) {
                None => None,
                Some((l, rest)) => Some((ls.push(l), rest)),
            },
        }
    }
}

/// Reads the record from the input: the number of locations, then as many
/// locations. Bytes that follow the last location are left unread.
pub open spec fn parse_config(input: Seq<u8>) -> Option<Seq<Location>> {
    match parse_u64(input) {
        None => None,
        Some((n, after)) => match parse_locations(after, n as nat) {
            None => None,
            Some((ls, _)) => Some(ls),
        },
    }
}

/// The locations that a mapping from names to paths holds, in the order of
/// its names.
pub open spec fn locations_of(m: &NameMap<String>) -> Seq<Location> {
    Seq::new(
        m.spec_names().len(),
        |i: int| Named { name: m.spec_names()[i], value: m.spec_values()[i]@ },
    )
}

/// A location that was written is read back, and what follows it is left.
pub proof fn lemma_parse_location_written(l: Location, rest: Seq<u8>)
    requires
        location_fits(l),
    ensures
        parse_location(location_bytes(l) + rest) == Some((l, rest)),
{
    let a = text_bytes(l.name);
    let b = text_bytes(l.value);
    assert(location_bytes(l) + rest =~= a + (b + rest));
    lemma_parse_text_written(l.name, b + rest);
    lemma_parse_text_written(l.value, rest);
}

/// What was read as a location stands written at the front of the input.
pub proof fn lemma_parse_location_reads(input: Seq<u8>)
    requires
        parse_location(input) is Some,
    ensures
        parse_location(input) matches Some((l, rest)) && input == location_bytes(l) + rest
            && location_fits(l),
{
    lemma_parse_text_reads(input);
    match parse_text(input) {
        Some((name, after_name)) => {
            lemma_parse_text_reads(after_name);
            match parse_text(after_name) {
                Some((path, rest)) => {
                    let a = text_bytes(name);
                    let b = text_bytes(path);
                    assert(a + (b + rest) =~= a + b + rest);
                },
                None => {},
            }
        },
        None => {},
    }
}

/// Locations that were written are read back, and what follows them is
/// left.
pub proof fn lemma_parse_locations_written(ls: Seq<Location>, rest: Seq<u8>)
    requires
        forall|i: int| 0 <= i < ls.len() ==> location_fits(#[trigger] ls[i]),
    ensures
        parse_locations(locations_bytes(ls) + rest, ls.len()) == Some((ls, rest)),
    decreases ls.len(),
{
    if ls.len() == 0 {
        assert(locations_bytes(ls) + rest =~= rest);
        assert(ls =~= Seq::<Location>::empty());
    } else {
        let front = ls.drop_last();
        let after = location_bytes(ls.last()) + rest;
        assert(locations_bytes(ls) + rest =~= locations_bytes(front) + after);
        lemma_parse_locations_written(front, after);
        lemma_parse_location_written(ls.last(), rest);
        assert(front.push(ls.last()) =~= ls);
    }
}

/// What was read as locations stands written at the front of the input.
pub proof fn lemma_parse_locations_reads(input: Seq<u8>, n: nat)
    requires
        parse_locations(input, n) is Some,
    ensures
        parse_locations(input, n) matches Some((ls, rest)) && input == locations_bytes(ls) + rest
            && ls.len() == n && (forall|i: int|
            0 <= i < ls.len() ==> location_fits(#[trigger] ls[i])),
    decreases n,
{
    if n == 0 {
        assert(input =~= locations_bytes(Seq::<Location>::empty()) + input);
    } else {
        lemma_parse_locations_reads(input, (n - 1) as nat);
        match parse_locations(input, (n - 1) as nat) {
            Some((front, after)) => {
                lemma_parse_location_reads(after);
                match parse_location(after) {
                    Some((l, rest)) => {
                        let ls = front.push(l);
                        assert(ls.drop_last() =~= front);
                        assert(input =~= locations_bytes(ls) + rest);
                    },
                    None => {},
                }
            },
            None => {},
        }
    }
}

/// Where fewer locations cannot be read, more cannot be read either.
pub proof fn lemma_parse_locations_stops(input: Seq<u8>, k: nat, n: nat)
    requires
        k <= n,
        parse_locations(input, k) is None,
    ensures
        parse_locations(input, n) is None,
    decreases n,
{
    if k < n {
        lemma_parse_locations_stops(input, k, (n - 1) as nat);
    }
}

/// A record that was written is read back, whatever follows it.
pub proof fn lemma_parse_config_written(ls: Seq<Location>, rest: Seq<u8>)
    requires
        locations_fit(ls),
    ensures
        parse_config(config_bytes(ls) + rest) == Some(ls),
{
    let n = ls.len() as u64;
    assert(config_bytes(ls) + rest =~= spec_u64_to_le_bytes(n) + (locations_bytes(ls) + rest));
    lemma_parse_u64_written(n, locations_bytes(ls) + rest);
    lemma_parse_locations_written(ls, rest);
}

/// What was read as a record stands written at the front of the input.
pub proof fn lemma_parse_config_reads(input: Seq<u8>)
    requires
        parse_config(input) is Some,
    ensures
        parse_config(input) matches Some(ls) && locations_fit(ls) && config_bytes(ls).is_prefix_of(
            input,
        ),
{
    lemma_parse_u64_reads(input);
    match parse_u64(input) {
        Some((n, after)) => {
            lemma_parse_locations_reads(after, n as nat);
            match parse_locations(after, n as nat) {
                Some((ls, rest)) => {
                    assert(input =~= config_bytes(ls) + rest);
                },
                None => {},
            }
        },
        None => {},
    }
}

/// The mapping between the names of the known vaults and where they are
/// stored on disk.
pub struct Config {
    vaults: NameMap<String>,
}

impl View for Config {
    type V = Seq<Location>;

    closed spec fn view(&self) -> Seq<Location> {
        locations_of(&self.vaults)
    }
}

impl Config {
    /// The invariant of the record: no name occurs twice.
    pub closed spec fn wf(&self) -> bool {
        self.vaults.wf()
    }

    /// Whether the record knows a vault of a name.
    pub open spec fn knows(&self, name: Seq<char>) -> bool {
        names_of(self@).contains(name)
    }

    /// The path under which the record knows a vault.
    pub open spec fn path_of(&self, name: Seq<char>) -> Seq<char> {
        self@[names_of(self@).index_of(name)].value
    }

    /// No name occurs twice in the record.
    pub proof fn lemma_wf(&self)
        requires
            self.wf(),
        ensures
            names_of(self@).no_duplicates(),
    {
        assert(names_of(self@) =~= self.vaults.spec_names());
    }

    /// A record without vaults.
    pub fn new() -> (c: Config)
        ensures
            c.wf(),
            c@ == Seq::<Location>::empty(),
    {
        let c = Config { vaults: NameMap::new() };
        assert(c@ =~= Seq::<Location>::empty());
        c
    }

    /// Records where a vault is stored. A path that the name had is
    /// replaced.
    pub fn add_vault(&mut self, vault_name: &str, vault_path: &str)
        requires
            old(self).wf(),
        ensures
            final(self).wf(),
            final(self)@ == put_named(
                old(self)@,
                Named { name: vault_name@, value: vault_path@ },
            ),
            final(self).knows(vault_name@),
            final(self).path_of(vault_name@) == vault_path@,
    {
        proof {
            self.lemma_wf();
            assert(names_of(self@) =~= self.vaults.spec_names());
            lemma_put_named(
                self@,
                Named { name: vault_name@, value: vault_path@ },
            );
        }
        let ghost before = self@;
        self.vaults.insert(vault_name.to_string(), vault_path.to_string());
        assert(self@ =~= put_named(before, Named { name: vault_name@, value: vault_path@ }));
    }

    /// The encoding of the record.
    pub fn serialize(&self) -> (out: Vec<u8>)
        requires
            self.wf(),
        ensures
            out@ == config_bytes(self@),
            locations_fit(self@),
    {
        let mut out: Vec<u8> = Vec::new();
        let n = self.vaults.len();
        put_u64(&mut out, n as u64);
        let ghost ls = self@;
        let ghost head = spec_u64_to_le_bytes(n as u64);
        assert(out@ =~= head + locations_bytes(ls.take(0)));
        let mut i: usize = 0;
        while i < n
            invariant
                self.wf(),
                n == self.vaults.spec_names().len(),
                ls == self@,
                i <= n,
                out@ == head + locations_bytes(ls.take(i as int)),
                forall|j: int| 0 <= j < i ==> location_fits(#[trigger] ls[j]),
            decreases n - i,
        {
            let ghost before = out@;
            put_text(&mut out, self.vaults.name_at(i).as_str());
            put_text(&mut out, self.vaults.value_at(i).as_str());
            proof {
                let l = ls[i as int];
                assert(ls.take(i + 1).drop_last() =~= ls.take(i as int));
                assert(ls.take(i + 1).last() == l);
                assert(out@ =~= before + location_bytes(l));
                assert(out@ =~= head + locations_bytes(ls.take(i + 1)));
            }
            i += 1;
        }
        assert(ls.take(n as int) =~= ls);
        out
    }

    /// Decodes a record. Where a name occurs more than once, the last of its
    /// paths is kept. Fails where the bytes are not the encoding of a record.
    pub fn deserialize(bytes: &[u8]) -> (r: Result<Config, VaultError>)
        ensures
            r is Ok <==> parse_config(bytes@) is Some,
            r matches Ok(c) ==> c.wf(),
            r matches Ok(c) ==> (parse_config(bytes@) matches Some(ls) && c@ == collected(ls)),
            r matches Err(e) ==> e == VaultError::Format,
    {
        let (n, start) = match take_u64(bytes, 0) {
            Some(p) => p,
            None => {
                assert(bytes@.skip(0) =~= bytes@);
                return Err(VaultError::Format);
            },
        };
        assert(bytes@.skip(0) =~= bytes@);
        let ghost after = bytes@.skip(start as int);
        let mut c = Config::new();
        let ghost mut parsed: Seq<Location> = Seq::empty();
        let mut pos: usize = start;
        let mut i: u64 = 0;
        while i < n
            invariant
                i <= n,
                start <= pos <= bytes@.len(),
                after == bytes@.skip(start as int),
                parse_u64(bytes@) == Some((n, after)),
                parse_locations(after, i as nat) == Some((parsed, bytes@.skip(pos as int))),
                c.wf(),
                c@ == collected(parsed),
            decreases n - i,
        {
            let (name, after_name) = match take_text(bytes, pos) {
                Some(p) => p,
                None => {
                    proof {
                        lemma_parse_locations_stops(after, (i + 1) as nat, n as nat);
                    }
                    return Err(VaultError::Format);
                },
            };
            let (path, next) = match take_text(bytes, after_name) {
                Some(p) => p,
                None => {
                    proof {
                        lemma_parse_locations_stops(after, (i + 1) as nat, n as nat);
                    }
                    return Err(VaultError::Format);
                },
            };
            proof {
                let l = Named { name: name@, value: path@ };
                assert(parsed.push(l).drop_last() =~= parsed);
                parsed = parsed.push(l);
            }
            c.add_vault(name.as_str(), path.as_str());
            pos = next;
            i += 1;
        }
        Ok(c)
    }

    /// The names of the known vaults, in the order in which they first came.
    pub fn get_vault_names(&self) -> (names: Vec<String>)
        requires
            self.wf(),
        ensures
            names@.len() == self@.len(),
            forall|i: int| 0 <= i < names@.len() ==> (#[trigger] names@[i])@ == self@[i].name,
    {
        self.vaults.names()
    }

    /// The known vaults: the path of each, by name.
    pub fn get_vaults(&self) -> (r: &NameMap<String>)
        requires
            self.wf(),
        ensures
            r.wf(),
            locations_of(r) == self@,
    {
        &self.vaults
    }

    /// The path under which a vault is stored, if the record knows the
    /// vault.
    pub fn get_path(&self, name: &str) -> (r: Option<&String>)
        requires
            self.wf(),
        ensures
            r is Some <==> self.knows(name@),
            r matches Some(path) ==> path@ == self.path_of(name@),
    {
        proof {
            assert(names_of(self@) =~= self.vaults.spec_names());
        }
        self.vaults.get(name)
    }
}

impl Default for Config {
    fn default() -> (c: Config)
        ensures
            c.wf(),
            c@ == Seq::<Location>::empty(),
    {
        Config::new()
    }
}

/// The record together with the place at which it is itself stored.
pub struct ConfigState {
    /// The place at which the record is stored.
    pub path: String,
    /// The record.
    pub state: Config,
}

impl ConfigState {
    /// The state at start. Where a stored record is given, the state holds
    /// what it decodes to, and fails where it does not decode; where none is
    /// given, the state holds an empty record.
    pub fn new(path: &str, stored: Option<&[u8]>) -> (r: Result<ConfigState, VaultError>)
        ensures
            r is Ok <==> (stored matches Some(bytes) ==> parse_config(bytes@) is Some),
            r matches Ok(s) ==> s.state.wf() && s.path@ == path@,
            r matches Ok(s) ==> s.state@ == match stored {
                Some(bytes) => collected(parse_config(bytes@)->0),
                None => Seq::<Location>::empty(),
            },
            r matches Err(e) ==> e == VaultError::Format,
    {
        let config = match stored {
            Some(bytes) => match Config::deserialize(bytes) {
                Ok(config) => config,
                Err(e) => return Err(e),
            },
            None => Config::default(),
        };
        Ok(ConfigState { path: path.to_string(), state: config })
    }

    /// The bytes of the record, to be stored at its place.
    pub fn write(&self) -> (out: Vec<u8>)
        requires
            self.state.wf(),
        ensures
            out@ == config_bytes(self.state@),
            parse_config(out@) == Some(self.state@),
    {
        let out = self.state.serialize();
        proof {
            assert(config_bytes(self.state@) + Seq::<u8>::empty() =~= config_bytes(self.state@));
            lemma_parse_config_written(self.state@, Seq::empty());
        }
        out
    }

    /// Records where a vault is stored. A path that the name had is
    /// replaced.
    pub fn add_vault(&mut self, vault_name: &str, vault_path: &str)
        requires
            old(self).state.wf(),
        ensures
            final(self).state.wf(),
            final(self).path == old(self).path,
            final(self).state@ == put_named(
                old(self).state@,
                Named { name: vault_name@, value: vault_path@ },
            ),
            final(self).state.knows(vault_name@),
            final(self).state.path_of(vault_name@) == vault_path@,
    {
        self.state.add_vault(vault_name, vault_path);
    }
}

} // verus!
