//! Length-prefixed command records and the textual payloads of the log and
//! of the wire protocol.
use vstd::prelude::*;
use byteorder::ByteOrder;
use std::collections::BTreeMap;

verus! {

/// The number that a sequence of bytes spells in big-endian order.
pub open spec fn be_value(s: Seq<u8>) -> nat
    decreases s.len(),
{
    if s.len() == 0 {
        0
    } else {
        be_value(s.drop_last()) * 256 + s.last() as nat
    }
}

/// The eight bytes of `n` below 2^64, most significant first.
pub open spec fn be8(n: nat) -> Seq<u8> {
    seq![
        (n / 0x100000000000000 % 256) as u8,
        (n / 0x1000000000000 % 256) as u8,
        (n / 0x10000000000 % 256) as u8,
        (n / 0x100000000 % 256) as u8,
        (n / 0x1000000 % 256) as u8,
        (n / 0x10000 % 256) as u8,
        (n / 0x100 % 256) as u8,
        (n % 256) as u8,
    ]
}

/// Strict order of strings as Rust orders them (by code point, then length).
pub open spec fn str_lt(a: Seq<char>, b: Seq<char>) -> bool
    decreases a.len(),
{
    if a.len() == 0 {
        b.len() > 0
    } else if b.len() == 0 {
        false
    } else if a[0] == b[0] {
        str_lt(a.drop_first(), b.drop_first())
    } else {
        (a[0] as u32) < (b[0] as u32)
    }
}

/// Field names strictly ascending, as a sorted map lists them.
pub open spec fn names_ascending(f: Seq<(Seq<char>, Seq<char>)>) -> bool {
    forall|i: int, j: int| 0 <= i < j < f.len() ==> str_lt(#[trigger] f[i].0, #[trigger] f[j].0)
}

pub open spec fn fields_view(v: Seq<(String, String)>) -> Seq<(Seq<char>, Seq<char>)> {
    v.map_values(|p: (String, String)| (p.0@, p.1@))
}

pub open spec fn entries_view(v: Seq<(String, Vec<(String, String)>)>) -> Seq<
    (Seq<char>, Seq<(Seq<char>, Seq<char>)>),
> {
    v.map_values(|e: (String, Vec<(String, String)>)| (e.0@, fields_view(e.1@)))
}

/// What serde_json writes for a map from one tag to a map of string fields.
pub uninterp spec fn nested_json(tag: Seq<char>, fields: Seq<(Seq<char>, Seq<char>)>) -> Seq<u8>;

/// What serde_json reads from bytes as a map of maps of strings, listed in key order.
pub uninterp spec fn nested_parsed(b: Seq<u8>) -> Option<
    Seq<(Seq<char>, Seq<(Seq<char>, Seq<char>)>)>,
>;

/// What serde_json writes for a map of strings.
pub uninterp spec fn flat_json(fields: Seq<(Seq<char>, Seq<char>)>) -> Seq<u8>;

/// What serde_json reads from bytes as a map of strings, listed in key order.
pub uninterp spec fn flat_parsed(b: Seq<u8>) -> Option<Seq<(Seq<char>, Seq<char>)>>;

/// What serde_json writes for a string.
pub uninterp spec fn string_json(s: Seq<char>) -> Seq<u8>;

/// What serde_json reads from bytes as a string.
pub uninterp spec fn string_parsed(b: Seq<u8>) -> Option<Seq<char>>;

/// Relies on byteorder's `BigEndian::write_u64`: the eight bytes of `n`, most
/// significant first.
#[verifier::external_body]
fn be_bytes(n: u64) -> (r: Vec<u8>)
    ensures
        r@ == be8(n as nat),
        r@.len() == 8,
        be_value(r@) == n,
{
    let mut buf = vec![0u8; 8];
    byteorder::BigEndian::write_u64(&mut buf, n);
    buf
}

/// Relies on byteorder's `BigEndian::read_u64`: the number that the first
/// eight bytes spell, most significant first.
#[verifier::external_body]
fn read_be(b: &[u8]) -> (r: u64)
    requires
        b@.len() == 8,
    ensures
        r == be_value(b@),
{
    byteorder::BigEndian::read_u64(b)
}

/// Relies on `serde_json::to_vec` for a `BTreeMap<String, BTreeMap<String, String>>`
/// holding one tag; whatever it writes, `serde_json::from_slice` reads back.
#[verifier::external_body]
pub(crate) fn write_nested(tag: &String, fields: &Vec<(String, String)>) -> (r: Vec<u8>)
    ensures
        r@ == nested_json(tag@, fields_view(fields@)),
        names_ascending(fields_view(fields@)) ==> nested_parsed(r@) == Some(
            seq![(tag@, fields_view(fields@))],
        ),
{
    let inner: BTreeMap<String, String> = fields.iter().cloned().collect();
    let mut outer = BTreeMap::new();
    outer.insert(tag.clone(), inner);
    serde_json::to_vec(&outer).unwrap_or_default()
}

/// Relies on `serde_json::from_slice` into a `BTreeMap<String, BTreeMap<String, String>>`.
#[verifier::external_body]
pub(crate) fn read_nested(b: &[u8]) -> (r: Option<Vec<(String, Vec<(String, String)>)>>)
    ensures
        match r {
            Some(v) => nested_parsed(b@) == Some(entries_view(v@)),
            None => nested_parsed(b@) is None,
        },
{
    match serde_json::from_slice::<BTreeMap<String, BTreeMap<String, String>>>(b) {
        Ok(m) => Some(m.into_iter().map(|(t, f)| (t, f.into_iter().collect())).collect()),
        Err(_) => None,
    }
}

/// Relies on `serde_json::to_vec` for a `BTreeMap<String, String>`; whatever it
/// writes, `serde_json::from_slice` reads back, and never as a bare string.
#[verifier::external_body]
pub(crate) fn write_flat(fields: &Vec<(String, String)>) -> (r: Vec<u8>)
    ensures
        r@ == flat_json(fields_view(fields@)),
        names_ascending(fields_view(fields@)) ==> flat_parsed(r@) == Some(fields_view(fields@)),
        string_parsed(r@) is None,
{
    let m: BTreeMap<String, String> = fields.iter().cloned().collect();
    serde_json::to_vec(&m).unwrap_or_default()
}

/// Relies on `serde_json::from_slice` into a `BTreeMap<String, String>`.
#[verifier::external_body]
pub(crate) fn read_flat(b: &[u8]) -> (r: Option<Vec<(String, String)>>)
    ensures
        match r {
            Some(v) => flat_parsed(b@) == Some(fields_view(v@)),
            None => flat_parsed(b@) is None,
        },
{
    match serde_json::from_slice::<BTreeMap<String, String>>(b) {
        Ok(m) => Some(m.into_iter().collect()),
        Err(_) => None,
    }
}

/// Relies on `serde_json::to_vec` for a `String`; whatever it writes,
/// `serde_json::from_slice` reads back.
#[verifier::external_body]
pub(crate) fn write_string(s: &String) -> (r: Vec<u8>)
    ensures
        r@ == string_json(s@),
        string_parsed(r@) == Some(s@),
{
    serde_json::to_vec(s).unwrap_or_default()
}

/// Relies on `serde_json::from_slice` into a `String`.
#[verifier::external_body]
pub(crate) fn read_string(b: &[u8]) -> (r: Option<String>)
    ensures
        match r {
            Some(s) => string_parsed(b@) == Some(s@),
            None => string_parsed(b@) is None,
        },
{
    serde_json::from_slice::<String>(b).ok()
}


pub open spec fn s_key() -> Seq<char> { seq!['k', 'e', 'y'] }
pub open spec fn s_value() -> Seq<char> { seq!['v', 'a', 'l', 'u', 'e'] }
pub open spec fn s_set() -> Seq<char> { seq!['S', 'e', 't'] }
pub open spec fn s_get() -> Seq<char> { seq!['G', 'e', 't'] }
pub open spec fn s_remove() -> Seq<char> { seq!['R', 'e', 'm', 'o', 'v', 'e'] }
pub open spec fn s_value_tag() -> Seq<char> { seq!['V', 'a', 'l', 'u', 'e'] }
pub open spec fn s_not_found() -> Seq<char> { seq!['N', 'o', 't', 'F', 'o', 'u', 'n', 'd'] }
pub open spec fn s_success() -> Seq<char> { seq!['S', 'u', 'c', 'c', 'e', 's', 's'] }

pub(crate) fn text(s: &str) -> (r: String)
    ensures
        r@ == s@,
{
    s.to_owned()
}

pub(crate) fn key_name() -> (r: String)
    ensures
        r@ == s_key(),
{
    proof { reveal_strlit("key"); }
    let r = text("key");
    assert(r@ =~= s_key());
    r
}

pub(crate) fn value_name() -> (r: String)
    ensures
        r@ == s_value(),
{
    proof { reveal_strlit("value"); }
    let r = text("value");
    assert(r@ =~= s_value());
    r
}

pub(crate) fn set_name() -> (r: String)
    ensures
        r@ == s_set(),
{
    proof { reveal_strlit("Set"); }
    let r = text("Set");
    assert(r@ =~= s_set());
    r
}

pub(crate) fn get_name() -> (r: String)
    ensures
        r@ == s_get(),
{
    proof { reveal_strlit("Get"); }
    let r = text("Get");
    assert(r@ =~= s_get());
    r
}

pub(crate) fn remove_name() -> (r: String)
    ensures
        r@ == s_remove(),
{
    proof { reveal_strlit("Remove"); }
    let r = text("Remove");
    assert(r@ =~= s_remove());
    r
}

pub(crate) fn value_tag_name() -> (r: String)
    ensures
        r@ == s_value_tag(),
{
    proof { reveal_strlit("Value"); }
    let r = text("Value");
    assert(r@ =~= s_value_tag());
    r
}

pub(crate) fn not_found_name() -> (r: String)
    ensures
        r@ == s_not_found(),
{
    proof { reveal_strlit("NotFound"); }
    let r = text("NotFound");
    assert(r@ =~= s_not_found());
    r
}

pub(crate) fn success_name() -> (r: String)
    ensures
        r@ == s_success(),
{
    proof { reveal_strlit("Success"); }
    let r = text("Success");
    assert(r@ =~= s_success());
    r
}

/// A mutation as it is stored in the log.
#[derive(Debug, Clone, PartialEq, Eq)]
pub enum Command {
    Put { key: String, value: String },
    Remove { key: String },
}

pub enum CommandModel {
    Put { key: Seq<char>, value: Seq<char> },
    Remove { key: Seq<char> },
}

impl CommandModel {
    pub open spec fn key(self) -> Seq<char> {
        match self {
            CommandModel::Put { key, .. } => key,
            CommandModel::Remove { key } => key,
        }
    }
}

impl View for Command {
    type V = CommandModel;

    open spec fn view(&self) -> CommandModel {
        match self {
            Command::Put { key, value } => CommandModel::Put { key: key@, value: value@ },
            Command::Remove { key } => CommandModel::Remove { key: key@ },
        }
    }
}

impl Command {
    /// The key that the command mentions.
    pub fn get_key(&self) -> (r: String)
        ensures
            r@ == self@.key(),
    {
        match self {
            Command::Put { key, .. } => key.clone(),
            Command::Remove { key } => key.clone(),
        }
    }
}

/// The tag and the named fields under which a tagged variant is written.
pub open spec fn key_fields(key: Seq<char>) -> Seq<(Seq<char>, Seq<char>)> {
    seq![(s_key(), key)]
}

pub open spec fn key_value_fields(key: Seq<char>, value: Seq<char>) -> Seq<(Seq<char>, Seq<char>)> {
    seq![(s_key(), key), (s_value(), value)]
}

pub open spec fn command_payload(c: CommandModel) -> Seq<u8> {
    match c {
        CommandModel::Put { key, value } => nested_json(s_set(), key_value_fields(key, value)),
        CommandModel::Remove { key } => nested_json(s_remove(), key_fields(key)),
    }
}

/// The command that decoded entries describe: one tag, with exactly its fields.
pub open spec fn command_of_entries(e: Seq<(Seq<char>, Seq<(Seq<char>, Seq<char>)>)>) -> Option<CommandModel> {
    if e.len() == 1 && e[0].0 == s_set() && e[0].1.len() == 2 && e[0].1[0].0 == s_key()
        && e[0].1[1].0 == s_value() {
        Some(CommandModel::Put { key: e[0].1[0].1, value: e[0].1[1].1 })
    } else if e.len() == 1 && e[0].0 == s_remove() && e[0].1.len() == 1 && e[0].1[0].0 == s_key() {
        Some(CommandModel::Remove { key: e[0].1[0].1 })
    } else {
        None
    }
}

pub open spec fn command_of_payload(b: Seq<u8>) -> Option<CommandModel> {
    match nested_parsed(b) {
        Some(e) => command_of_entries(e),
        None => None,
    }
}

pub open spec fn opt_command_view(r: Option<Command>) -> Option<CommandModel> {
    match r {
        Some(c) => Some(c@),
        None => None,
    }
}

pub(crate) fn fields_of_key(key: &String) -> (r: Vec<(String, String)>)
    ensures
        fields_view(r@) == key_fields(key@),
{
    let mut r = Vec::new();
    r.push((key_name(), key.clone()));
    assert(fields_view(r@) =~= key_fields(key@));
    r
}

pub(crate) fn fields_of_key_value(key: &String, value: &String) -> (r: Vec<(String, String)>)
    ensures
        fields_view(r@) == key_value_fields(key@, value@),
{
    let mut r = Vec::new();
    r.push((key_name(), key.clone()));
    r.push((value_name(), value.clone()));
    assert(fields_view(r@) =~= key_value_fields(key@, value@));
    r
}

pub(crate) proof fn lemma_key_before_value()
    ensures
        str_lt(s_key(), s_value()),
        names_ascending(key_value_fields(s_key(), s_value())),
{
    reveal_with_fuel(str_lt, 2);
}

pub(crate) proof fn lemma_fields_ascending(key: Seq<char>, value: Seq<char>)
    ensures
        names_ascending(key_fields(key)),
        names_ascending(key_value_fields(key, value)),
{
    lemma_key_before_value();
    assert forall|i: int, j: int| 0 <= i < j < key_value_fields(key, value).len() implies str_lt(
        #[trigger] key_value_fields(key, value)[i].0,
        #[trigger] key_value_fields(key, value)[j].0,
    ) by {
        assert(i == 0 && j == 1);
    }
}

/// Encodes a command as the payload of a log record; decoding the payload
/// gives the command back.
pub fn encode_command(c: &Command) -> (r: Vec<u8>)
    ensures
        r@ == command_payload(c@),
        command_of_payload(r@) == Some(c@),
{
    proof {
        assert(s_set() != s_remove());
        lemma_key_before_value();
    }
    match c {
        Command::Put { key, value } => {
            proof { lemma_fields_ascending(key@, value@); }
            write_nested(&set_name(), &fields_of_key_value(key, value))
        },
        Command::Remove { key } => {
            proof { lemma_fields_ascending(key@, key@); }
            write_nested(&remove_name(), &fields_of_key(key))
        },
    }
}

/// Reads a key field or a key and a value field out of decoded entries.
pub(crate) fn one_entry_fields(
    e: &Vec<(String, Vec<(String, String)>)>,
    tag: &String,
    with_value: bool,
) -> (r: Option<(String, String)>)
    ensures
        match r {
            Some(p) => {
                let ev = entries_view(e@);
                &&& ev.len() == 1
                &&& ev[0].0 == tag@
                &&& if with_value {
                    ev[0].1.len() == 2 && ev[0].1[0] == (s_key(), p.0@) && ev[0].1[1] == (s_value(), p.1@)
                } else {
                    ev[0].1.len() == 1 && ev[0].1[0].0 == s_key() && ev[0].1[0].1 == p.0@
                }
            },
            None => {
                let ev = entries_view(e@);
                !(ev.len() == 1 && ev[0].0 == tag@ && if with_value {
                    ev[0].1.len() == 2 && ev[0].1[0].0 == s_key() && ev[0].1[1].0 == s_value()
                } else {
                    ev[0].1.len() == 1 && ev[0].1[0].0 == s_key()
                })
            },
        },
{
    if e.len() != 1 {
        return None;
    }
    let (t, f) = &e[0];
    if !(*t == *tag) {
        return None;
    }
    let k = key_name();
    if with_value {
        if f.len() != 2 {
            return None;
        }
        let v = value_name();
        if f[0].0 == k && f[1].0 == v {
            Some((f[0].1.clone(), f[1].1.clone()))
        } else {
            None
        }
    } else {
        if f.len() != 1 {
            return None;
        }
        if f[0].0 == k {
            Some((f[0].1.clone(), text("")))
        } else {
            None
        }
    }
}

/// Decodes the payload of a log record. A payload must hold exactly the
/// fields of its variant: one with fields besides them is refused.
pub fn decode_command(b: &[u8]) -> (r: Option<Command>)
    ensures
        opt_command_view(r) == command_of_payload(b@),
{
    match read_nested(b) {
        None => None,
        Some(e) => {
            proof { assert(s_set() != s_remove()); }
            match one_entry_fields(&e, &set_name(), true) {
                Some((key, value)) => Some(Command::Put { key, value }),
                None => match one_entry_fields(&e, &remove_name(), false) {
                    Some((key, _)) => Some(Command::Remove { key }),
                    None => None,
                },
            }
        },
    }
}


/// The command recorded at byte `off` of a log, and the record's size: an
/// eight-byte big-endian length `n`, then `n` bytes of payload.
pub open spec fn record_at(log: Seq<u8>, off: int) -> Option<(CommandModel, int)> {
    if 0 <= off && off + 8 <= log.len() {
        let n = be_value(log.subrange(off, off + 8)) as int;
        if off + 8 + n <= log.len() {
            match command_of_payload(log.subrange(off + 8, off + 8 + n)) {
                Some(c) => Some((c, 8 + n)),
                None => None,
            }
        } else {
            None
        }
    } else {
        None
    }
}

/// A record already in a log reads the same once more bytes are appended.
pub proof fn lemma_record_at_extend(log: Seq<u8>, extra: Seq<u8>, off: int)
    requires
        record_at(log, off) is Some,
    ensures
        record_at(log + extra, off) == record_at(log, off),
{
    let n = be_value(log.subrange(off, off + 8)) as int;
    assert((log + extra).subrange(off, off + 8) =~= log.subrange(off, off + 8));
    assert((log + extra).subrange(off + 8, off + 8 + n) =~= log.subrange(off + 8, off + 8 + n));
}

/// A record appended to a log reads back at the log's old end.
pub proof fn lemma_record_at_append(log: Seq<u8>, rec: Seq<u8>)
    requires
        record_at(rec, 0) is Some,
        record_at(rec, 0).unwrap().1 == rec.len(),
    ensures
        record_at(log + rec, log.len() as int) == record_at(rec, 0),
{
    let off = log.len() as int;
    let n = be_value(rec.subrange(0, 8)) as int;
    assert((log + rec).subrange(off, off + 8) =~= rec.subrange(0, 8));
    assert((log + rec).subrange(off + 8, off + 8 + n) =~= rec.subrange(8, 8 + n));
}

fn copy_range(b: &[u8], start: usize, end: usize) -> (r: Vec<u8>)
    requires
        start <= end <= b@.len(),
    ensures
        r@ == b@.subrange(start as int, end as int),
{
    let mut r: Vec<u8> = Vec::new();
    let mut i: usize = start;
    while i < end
        invariant
            start <= i <= end <= b@.len(),
            r@ == b@.subrange(start as int, i as int),
        decreases end - i,
    {
        r.push(b[i]);
        i = i + 1;
        assert(r@ =~= b@.subrange(start as int, i as int));
    }
    r
}

/// Appends all of `src` to `dst`.
pub fn extend_bytes(dst: &mut Vec<u8>, src: &[u8])
    ensures
        final(dst)@ == old(dst)@ + src@,
{
    let mut i: usize = 0;
    while i < src.len()
        invariant
            i <= src@.len(),
            dst@ == old(dst)@ + src@.subrange(0, i as int),
        decreases src@.len() - i,
    {
        dst.push(src[i]);
        i = i + 1;
        assert(dst@ =~= old(dst)@ + src@.subrange(0, i as int));
    }
    assert(src@.subrange(0, src@.len() as int) =~= src@);
}

/// The bytes of the record of a command: its payload's length in eight
/// big-endian bytes, then the payload.
pub open spec fn record_of(c: CommandModel) -> Seq<u8> {
    be8(command_payload(c).len()) + command_payload(c)
}

/// Frames a command as a log record: its payload's length in eight
/// big-endian bytes, then the payload. The record reads back as the command.
pub fn encode_record(c: &Command) -> (r: Vec<u8>)
    ensures
        r@ == record_of(c@),
        r@.len() >= 8,
        be_value(r@.subrange(0, 8)) == r@.len() - 8,
        r@.subrange(8, r@.len() as int) == command_payload(c@),
        record_at(r@, 0) == Some((c@, r@.len() as int)),
{
    let payload = encode_command(c);
    let mut r = be_bytes(payload.len() as u64);
    let ghost head = r@;
    extend_bytes(&mut r, payload.as_slice());
    assert(r@ =~= record_of(c@));
    assert(r@.subrange(0, 8) =~= head);
    assert(r@.subrange(8, r@.len() as int) =~= payload@);
    r
}

/// Reads the record at byte `off` of a log: the command and the record's size.
pub fn read_command_from(log: &[u8], off: usize) -> (r: Option<(Command, usize)>)
    ensures
        match r {
            Some((c, n)) => record_at(log@, off as int) == Some((c@, n as int)),
            None => record_at(log@, off as int) is None,
        },
{
    if off > log.len() || log.len() - off < 8 {
        return None;
    }
    let head = copy_range(log, off, off + 8);
    let n = read_be(head.as_slice());
    if n > (log.len() - off - 8) as u64 {
        return None;
    }
    let n = n as usize;
    let payload = copy_range(log, off + 8, off + 8 + n);
    match decode_command(payload.as_slice()) {
        Some(c) => Some((c, n + 8)),
        None => None,
    }
}

} // verus!
