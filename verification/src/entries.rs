//! The entries of a vault and their byte encoding.
//!
//! The entries are encoded as their number followed by one record for each:
//! the title under which the entry is kept, then its user name, its password
//! and its address, each as a text.

use vstd::bytes::spec_u64_to_le_bytes;
use vstd::prelude::*;
use vstd::utf8::encode_utf8;

use crate::error::VaultError;
use crate::name_map::{collected, names_of, put_named, NameMap, Named};
use crate::wire::{
    lemma_parse_text_reads, lemma_parse_text_written, lemma_parse_u64_reads,
    lemma_parse_u64_written, parse_text, parse_u64, put_text, put_u64, take_text, take_u64,
    text_bytes,
};

verus! {

/// The credentials kept for one site.
#[derive(Debug)]
pub struct VaultEntry {
    username: String,
    password: String,
    url: String,
}

/// What an entry holds.
pub struct VaultEntryView {
    pub username: Seq<char>,
    pub password: Seq<char>,
    pub url: Seq<char>,
}

impl View for VaultEntry {
    type V = VaultEntryView;

    closed spec fn view(&self) -> VaultEntryView {
        VaultEntryView { username: self.username@, password: self.password@, url: self.url@ }
    }
}

impl VaultEntry {
    /// An entry of the given user name, password and address.
    pub fn new(username: String, password: String, url: String) -> (e: VaultEntry)
        ensures
            e@ == (VaultEntryView { username: username@, password: password@, url: url@ }),
    {
        VaultEntry { username, password, url }
    }

    /// The user name.
    pub fn username(&self) -> (s: &str)
        ensures
            s@ == self@.username,
    {
        self.username.as_str()
    }

    /// The password.
    pub fn password(&self) -> (s: &str)
        ensures
            s@ == self@.password,
    {
        self.password.as_str()
    }

    /// The address.
    pub fn url(&self) -> (s: &str)
        ensures
            s@ == self@.url,
    {
        self.url.as_str()
    }
}

impl Default for VaultEntry {
    fn default() -> (e: VaultEntry)
        ensures
            e@ == (VaultEntryView {
                username: Seq::<char>::empty(),
                password: Seq::<char>::empty(),
                url: Seq::<char>::empty(),
            }),
    {
        VaultEntry { username: String::new(), password: String::new(), url: String::new() }
    }
}

impl Clone for VaultEntry {
    fn clone(&self) -> (e: VaultEntry)
        ensures
            e@ == self@,
    {
        VaultEntry {
            username: self.username.clone(),
            password: self.password.clone(),
            url: self.url.clone(),
        }
    }
}

/// An entry together with the title under which it is kept.
pub type Record = Named<VaultEntryView>;

/// Whether every text of a record fits a frame.
pub open spec fn record_fits(r: Record) -> bool {
    &&& encode_utf8(r.name).len() <= u64::MAX
    &&& encode_utf8(r.value.username).len() <= u64::MAX
    &&& encode_utf8(r.value.password).len() <= u64::MAX
    &&& encode_utf8(r.value.url).len() <= u64::MAX
}

/// Whether records can be encoded: their number and every text fit.
pub open spec fn records_fit(rs: Seq<Record>) -> bool {
    &&& rs.len() <= u64::MAX
    &&& forall|i: int| 0 <= i < rs.len() ==> record_fits(#[trigger] rs[i])
}

/// The encoding of one record.
pub open spec fn record_bytes(r: Record) -> Seq<u8> {
    text_bytes(r.name) + text_bytes(r.value.username) + text_bytes(r.value.password) + text_bytes(
        r.value.url,
    )
}

/// The encodings of records, one after the other.
pub open spec fn records_bytes(rs: Seq<Record>) -> Seq<u8>
    decreases rs.len(),
{
    if rs.len() == 0 {
        Seq::empty()
    } else {
        records_bytes(rs.drop_last()) + record_bytes(rs.last())
    }
}

/// The encoding of the entries: their number, then their records.
pub open spec fn entries_bytes(rs: Seq<Record>) -> Seq<u8> {
    spec_u64_to_le_bytes(rs.len() as u64) + records_bytes(rs)
}

/// Reads one record from the front of the input.
pub open spec fn parse_record(input: Seq<u8>) -> Option<(Record, Seq<u8>)> {
    match parse_text(input) {
        None => None,
        Some((title, after_title)) => match parse_text(after_title) {
            None => None,
            Some((username, after_username)) => match parse_text(after_username) {
                None => None,
                Some((password, after_password)) => match parse_text(after_password) {
                    None => None,
                    Some((url, rest)) => Some(
                        (Named { name: title, value: VaultEntryView { username, password, url } }, rest),
                    ),
                },
            },
        },
    }
}

/// Reads a given number of records from the front of the input.
pub open spec fn parse_records(input: Seq<u8>, n: nat) -> Option<(Seq<Record>, Seq<u8>)>
    decreases n,
{
    if n == 0 {
        Some((Seq::empty(), input))
    } else {
        match parse_records(input, (n - 1) as nat) {
            None => None,
            Some((rs, after)) => match parse_record(after) {
                None => None,
                Some((r, rest)) => Some((rs.push(r), rest)),
            },
        }
    }
}

/// Reads the entries from the input: their number, then as many records.
/// Bytes that follow the last record are left unread.
pub open spec fn parse_entries(input: Seq<u8>) -> Option<Seq<Record>> {
    match parse_u64(input) {
        None => None,
        Some((n, after)) => match parse_records(after, n as nat) {
            None => None,
            Some((rs, _)) => Some(rs),
        },
    }
}

/// The records that a mapping of entries holds, in the order of its names.
pub open spec fn records_of(m: &NameMap<VaultEntry>) -> Seq<Record> {
    Seq::new(
        m.spec_names().len(),
        |i: int| Named { name: m.spec_names()[i], value: m.spec_values()[i]@ },
    )
}

/// A record that was written is read back, and what follows it is left.
pub proof fn lemma_parse_record_written(r: Record, rest: Seq<u8>)
    requires
        record_fits(r),
    ensures
        parse_record(record_bytes(r) + rest) == Some((r, rest)),
{
    let a = text_bytes(r.name);
    let b = text_bytes(r.value.username);
    let c = text_bytes(r.value.password);
    let d = text_bytes(r.value.url);
    assert(record_bytes(r) + rest =~= a + (b + (c + (d + rest))));
    lemma_parse_text_written(r.name, b + (c + (d + rest)));
    lemma_parse_text_written(r.value.username, c + (d + rest));
    lemma_parse_text_written(r.value.password, d + rest);
    lemma_parse_text_written(r.value.url, rest);
}

/// What was read as a record stands written at the front of the input.
pub proof fn lemma_parse_record_reads(input: Seq<u8>)
    requires
        parse_record(input) is Some,
    ensures
        parse_record(input) matches Some((r, rest)) && input == record_bytes(r) + rest
            && record_fits(r),
{
    lemma_parse_text_reads(input);
    match parse_text(input) {
        Some((title, after_title)) => {
            lemma_parse_text_reads(after_title);
            match parse_text(after_title) {
                Some((username, after_username)) => {
                    lemma_parse_text_reads(after_username);
                    match parse_text(after_username) {
                        Some((password, after_password)) => {
                            lemma_parse_text_reads(after_password);
                            match parse_text(after_password) {
                                Some((url, rest)) => {
                                    let a = text_bytes(title);
                                    let b = text_bytes(username);
                                    let c = text_bytes(password);
                                    let d = text_bytes(url);
                                    assert(after_username == c + (d + rest));
                                    assert(after_title == b + (c + (d + rest)));
                                    assert(input == a + (b + (c + (d + rest))));
                                    assert(a + (b + (c + (d + rest))) =~= a + b + c + d + rest);
                                },
                                None => {},
                            }
                        },
                        None => {},
                    }
                },
                None => {},
            }
        },
        None => {},
    }
}

/// Records that were written are read back, and what follows them is left.
pub proof fn lemma_parse_records_written(rs: Seq<Record>, rest: Seq<u8>)
    requires
        forall|i: int| 0 <= i < rs.len() ==> record_fits(#[trigger] rs[i]),
    ensures
        parse_records(records_bytes(rs) + rest, rs.len()) == Some((rs, rest)),
    decreases rs.len(),
{
    if rs.len() == 0 {
        assert(records_bytes(rs) + rest =~= rest);
        assert(rs =~= Seq::<Record>::empty());
    } else {
        let front = rs.drop_last();
        let after = record_bytes(rs.last()) + rest;
        assert(records_bytes(rs) + rest =~= records_bytes(front) + after);
        lemma_parse_records_written(front, after);
        lemma_parse_record_written(rs.last(), rest);
        assert(front.push(rs.last()) =~= rs);
    }
}

/// What was read as records stands written at the front of the input.
pub proof fn lemma_parse_records_reads(input: Seq<u8>, n: nat)
    requires
        parse_records(input, n) is Some,
    ensures
        parse_records(input, n) matches Some((rs, rest)) && input == records_bytes(rs) + rest
            && rs.len() == n && (forall|i: int| 0 <= i < rs.len() ==> record_fits(#[trigger] rs[i])),
    decreases n,
{
    if n == 0 {
        assert(input =~= records_bytes(Seq::<Record>::empty()) + input);
    } else {
        lemma_parse_records_reads(input, (n - 1) as nat);
        match parse_records(input, (n - 1) as nat) {
            Some((front, after)) => {
                lemma_parse_record_reads(after);
                match parse_record(after) {
                    Some((r, rest)) => {
                        let rs = front.push(r);
                        assert(rs.drop_last() =~= front);
                        assert(input =~= records_bytes(rs) + rest);
                    },
                    None => {},
                }
            },
            None => {},
        }
    }
}

/// Where fewer records cannot be read, more cannot be read either.
pub proof fn lemma_parse_records_stops(input: Seq<u8>, k: nat, n: nat)
    requires
        k <= n,
        parse_records(input, k) is None,
    ensures
        parse_records(input, n) is None,
    decreases n,
{
    if k < n {
        lemma_parse_records_stops(input, k, (n - 1) as nat);
    }
}

/// Entries that were written are read back, whatever follows them.
pub proof fn lemma_parse_entries_written(rs: Seq<Record>, rest: Seq<u8>)
    requires
        records_fit(rs),
    ensures
        parse_entries(entries_bytes(rs) + rest) == Some(rs),
{
    let n = rs.len() as u64;
    assert(entries_bytes(rs) + rest =~= spec_u64_to_le_bytes(n) + (records_bytes(rs) + rest));
    lemma_parse_u64_written(n, records_bytes(rs) + rest);
    lemma_parse_records_written(rs, rest);
}

/// What was read as entries stands written at the front of the input.
pub proof fn lemma_parse_entries_reads(input: Seq<u8>)
    requires
        parse_entries(input) is Some,
    ensures
        parse_entries(input) matches Some(rs) && records_fit(rs) && entries_bytes(
            rs,
        ).is_prefix_of(input),
{
    lemma_parse_u64_reads(input);
    match parse_u64(input) {
        Some((n, after)) => {
            lemma_parse_records_reads(after, n as nat);
            match parse_records(after, n as nat) {
                Some((rs, rest)) => {
                    assert(input =~= entries_bytes(rs) + rest);
                },
                None => {},
            }
        },
        None => {},
    }
}

/// The records of a mapping of entries have its names for titles, so no
/// title occurs twice among them.
pub proof fn lemma_records_of(m: &NameMap<VaultEntry>)
    requires
        m.wf(),
    ensures
        names_of(records_of(m)) == m.spec_names(),
        names_of(records_of(m)).no_duplicates(),
        records_of(m).len() == m.spec_names().len(),
{
    assert(names_of(records_of(m)) =~= m.spec_names());
}

/// Encodes the entries of a vault.
pub fn encode_entries(entries: &NameMap<VaultEntry>) -> (out: Vec<u8>)
    requires
        entries.wf(),
    ensures
        out@ == entries_bytes(records_of(entries)),
        records_fit(records_of(entries)),
{
    let mut out: Vec<u8> = Vec::new();
    let n = entries.len();
    put_u64(&mut out, n as u64);
    let ghost rs = records_of(entries);
    let ghost head = spec_u64_to_le_bytes(n as u64);
    assert(out@ =~= head + records_bytes(rs.take(0)));
    let mut i: usize = 0;
    while i < n
        invariant
            entries.wf(),
            n == entries.spec_names().len(),
            rs == records_of(entries),
            i <= n,
            out@ == head + records_bytes(rs.take(i as int)),
            forall|j: int| 0 <= j < i ==> record_fits(#[trigger] rs[j]),
        decreases n - i,
    {
        let ghost before = out@;
        let title = entries.name_at(i);
        let entry = entries.value_at(i);
        put_text(&mut out, title.as_str());
        put_text(&mut out, entry.username());
        put_text(&mut out, entry.password());
        put_text(&mut out, entry.url());
        proof {
            let r = rs[i as int];
            assert(rs.take(i + 1).drop_last() =~= rs.take(i as int));
            assert(rs.take(i + 1).last() == r);
            assert(out@ =~= before + record_bytes(r));
            assert(out@ =~= head + records_bytes(rs.take(i + 1)));
        }
        i += 1;
    }
    assert(rs.take(n as int) =~= rs);
    out
}

/// Reads one record at a position of the input, and gives the position
/// behind it.
fn take_record(bytes: &[u8], pos: usize) -> (r: Option<(String, VaultEntry, usize)>)
    requires
        pos <= bytes@.len(),
    ensures
        r is Some <==> parse_record(bytes@.skip(pos as int)) is Some,
        r matches Some((title, entry, next)) ==> pos <= next <= bytes@.len() && parse_record(
            bytes@.skip(pos as int),
        ) == Some((Named { name: title@, value: entry@ }, bytes@.skip(next as int))),
{
    let (title, pos) = match take_text(bytes, pos) {
        Some(p) => p,
        None => return None,
    };
    let (username, pos) = match take_text(bytes, pos) {
        Some(p) => p,
        None => return None,
    };
    let (password, pos) = match take_text(bytes, pos) {
        Some(p) => p,
        None => return None,
    };
    let (url, pos) = match take_text(bytes, pos) {
        Some(p) => p,
        None => return None,
    };
    Some((title, VaultEntry::new(username, password, url), pos))
}

/// Decodes the entries of a vault. Where a title occurs more than once, the
/// last of its records is kept.
pub fn decode_entries(bytes: &[u8]) -> (r: Result<NameMap<VaultEntry>, VaultError>)
    ensures
        r is Ok <==> parse_entries(bytes@) is Some,
        r matches Ok(entries) ==> entries.wf(),
        r matches Ok(entries) ==> (parse_entries(bytes@) matches Some(rs) && records_of(&entries)
            == collected(rs)),
        r matches Err(e) ==> e == VaultError::Format,
{
    let (n, start) = match take_u64(bytes, 0) {
        Some(p) => p,
        None => {
            assert(bytes@.skip(0) =~= bytes@);
            return Err(VaultError::Format);
        },
    };
    assert(bytes@.skip(0) =~= bytes@);
    let ghost after = bytes@.skip(start as int);
    let mut entries: NameMap<VaultEntry> = NameMap::new();
    let ghost mut parsed: Seq<Record> = Seq::empty();
    let mut pos: usize = start;
    let mut i: u64 = 0;
    assert(records_of(&entries) =~= collected(parsed));
    while i < n
        invariant
            i <= n,
            start <= pos <= bytes@.len(),
            after == bytes@.skip(start as int),
            parse_u64(bytes@) == Some((n, after)),
            parse_records(after, i as nat) == Some((parsed, bytes@.skip(pos as int))),
            entries.wf(),
            records_of(&entries) == collected(parsed),
        decreases n - i,
    {
        match take_record(bytes, pos) {
            None => {
                proof {
                    lemma_parse_records_stops(after, (i + 1) as nat, n as nat);
                }
                return Err(VaultError::Format);
            },
            Some((title, entry, next)) => {
                let ghost r = Named { name: title@, value: entry@ };
                let ghost kept = records_of(&entries);
                proof {
                    lemma_records_of(&entries);
                    assert(parsed.push(r).drop_last() =~= parsed);
                }
                entries.insert(title, entry);
                proof {
                    assert(records_of(&entries) =~= put_named(kept, r));
                    parsed = parsed.push(r);
                }
                pos = next;
                i += 1;
            },
        }
    }
    Ok(entries)
}

} // verus!
