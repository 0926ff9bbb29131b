//! A record: one log entry being built as a JSON object.
use vstd::prelude::*;
use crate::define::Level;
use crate::encode::{escape, json_text, scalar_ok, string_body_ok, Encode};
use vstd::utf8::encode_utf8;
use crate::source::Source;

verus! {

/// What a record holds: its level, the bytes written so far and where it was made.
pub struct RecordView {
    pub level: Level,
    pub bytes: Seq<u8>,
    pub source: Source,
}

/// The bytes of a record that has just been made or reset: an opening brace.
pub open spec fn opened() -> Seq<u8> {
    seq![123u8]
}

/// One field as a record holds it before it is finished: key, colon, value
/// and a trailing comma.
pub open spec fn field(key: Seq<char>, value: Seq<u8>) -> Seq<u8> {
    json_text(key) + seq![58u8] + value + seq![44u8]
}

/// What `finish` makes of the bytes `b`: a trailing comma becomes the
/// closing brace, else a closing brace is added; then a newline.
pub open spec fn sealed(b: Seq<u8>) -> Seq<u8> {
    if b.len() > 0 && b.last() == 44u8 {
        b.drop_last() + seq![125u8, 10u8]
    } else {
        b + seq![125u8, 10u8]
    }
}

/// One member of a JSON object: key, colon, value.
pub open spec fn member(key: Seq<char>, value: Seq<u8>) -> Seq<u8> {
    json_text(key) + seq![58u8] + value
}

/// What a run of `append` calls writes: each key with its value text, in order.
pub open spec fn fields_text(fields: Seq<(Seq<char>, Seq<u8>)>) -> Seq<u8>
    decreases fields.len(),
{
    if fields.len() == 0 {
        Seq::empty()
    } else {
        fields_text(fields.drop_last()) + field(fields.last().0, fields.last().1)
    }
}

/// The members of a JSON object holding `fields`, separated by commas.
pub open spec fn members_text(fields: Seq<(Seq<char>, Seq<u8>)>) -> Seq<u8>
    decreases fields.len(),
{
    if fields.len() == 0 {
        Seq::empty()
    } else if fields.len() == 1 {
        member(fields[0].0, fields[0].1)
    } else {
        members_text(fields.drop_last()) + seq![44u8] + member(fields.last().0, fields.last().1)
    }
}

/// Appended fields are the members of the object followed by one comma.
proof fn lemma_fields_text(fields: Seq<(Seq<char>, Seq<u8>)>)
    requires
        fields.len() > 0,
    ensures
        fields_text(fields) == members_text(fields) + seq![44u8],
    decreases fields.len(),
{
    let last = fields.last();
    if fields.len() == 1 {
        assert(fields.drop_last() =~= Seq::<(Seq<char>, Seq<u8>)>::empty());
        assert(fields_text(fields.drop_last()) =~= Seq::<u8>::empty());
        assert(last == fields[0]);
        assert(fields_text(fields) =~= members_text(fields) + seq![44u8]);
    } else {
        lemma_fields_text(fields.drop_last());
        assert(fields_text(fields) =~= members_text(fields) + seq![44u8]);
    }
}

/// Finishing a record to which nothing was appended gives exactly `{}` and a newline.
pub proof fn lemma_finish_empty()
    ensures
        sealed(opened()) == seq![123u8, 125u8, 10u8],
{
    assert(sealed(opened()) =~= seq![123u8, 125u8, 10u8]);
}

/// Finishing after an `append` puts the closing brace in place of the
/// separator that the last field left, never after it.
pub proof fn lemma_finish_replaces_separator(before: Seq<u8>, key: Seq<char>, value: Seq<u8>)
    ensures
        sealed(before + field(key, value)) == before + member(key, value) + seq![125u8, 10u8],
{
    let b = before + field(key, value);
    assert(b.drop_last() =~= before + member(key, value));
    assert(sealed(b) =~= before + member(key, value) + seq![125u8, 10u8]);
}

/// A record made and filled with any fields, then finished, is one JSON
/// object holding those members in order, closed by a newline: no trailing
/// comma and nothing around it.
pub proof fn lemma_finish_object(fields: Seq<(Seq<char>, Seq<u8>)>)
    ensures
        sealed(opened() + fields_text(fields)) == seq![123u8] + members_text(fields) + seq![125u8, 10u8],
{
    if fields.len() == 0 {
        assert(opened() + fields_text(fields) =~= opened());
        lemma_finish_empty();
        assert(seq![123u8] + members_text(fields) + seq![125u8, 10u8] =~= seq![123u8, 125u8, 10u8]);
    } else {
        lemma_fields_text(fields);
        let b = opened() + fields_text(fields);
        assert(b =~= seq![123u8] + members_text(fields) + seq![44u8]);
        assert(b.drop_last() =~= seq![123u8] + members_text(fields));
        assert(sealed(b) =~= seq![123u8] + members_text(fields) + seq![125u8, 10u8]);
    }
}

/// One member of a JSON object from the body of its key string and its value token.
pub open spec fn pair_text(m: (Seq<u8>, Seq<u8>)) -> Seq<u8> {
    seq![34u8] + m.0 + seq![34u8, 58u8] + m.1
}

/// Members separated by commas.
pub open spec fn pairs_text(members: Seq<(Seq<u8>, Seq<u8>)>) -> Seq<u8>
    decreases members.len(),
{
    if members.len() == 0 {
        Seq::empty()
    } else if members.len() == 1 {
        pair_text(members[0])
    } else {
        pairs_text(members.drop_last()) + seq![44u8] + pair_text(members.last())
    }
}

/// One line of JSON text: an object whose keys are valid string bodies and
/// whose values are valid scalar tokens, then a newline.
pub open spec fn json_line(b: Seq<u8>) -> bool {
    exists|members: Seq<(Seq<u8>, Seq<u8>)>|
        {
            &&& forall|i: int|
                0 <= i < members.len() ==> string_body_ok(#[trigger] members[i].0) && scalar_ok(
                    members[i].1,
                )
            &&& b == seq![123u8] + #[trigger] pairs_text(members) + seq![125u8, 10u8]
        }
}

/// The members that fields make: escaped key bytes and value text.
pub open spec fn members_of(fields: Seq<(Seq<char>, Seq<u8>)>) -> Seq<(Seq<u8>, Seq<u8>)> {
    Seq::new(fields.len(), |i: int| (escape(encode_utf8(fields[i].0)), fields[i].1))
}

proof fn lemma_members_text(fields: Seq<(Seq<char>, Seq<u8>)>)
    ensures
        members_text(fields) == pairs_text(members_of(fields)),
    decreases fields.len(),
{
    let m = members_of(fields);
    if fields.len() == 1 {
        assert(member(fields[0].0, fields[0].1) =~= pair_text(m[0]));
    } else if fields.len() > 1 {
        lemma_members_text(fields.drop_last());
        assert(m.drop_last() =~= members_of(fields.drop_last()));
        assert(member(fields.last().0, fields.last().1) =~= pair_text(m.last()));
    }
}

/// A record made, given fields whose values are JSON scalar tokens, and
/// finished, is one line of JSON: whatever the keys hold, they are escaped.
pub proof fn lemma_finished_record_is_json(fields: Seq<(Seq<char>, Seq<u8>)>)
    requires
        forall|i: int| 0 <= i < fields.len() ==> scalar_ok(#[trigger] fields[i].1),
    ensures
        json_line(sealed(opened() + fields_text(fields))),
{
    lemma_finish_object(fields);
    lemma_members_text(fields);
    let m = members_of(fields);
    assert forall|i: int| 0 <= i < m.len() implies string_body_ok(#[trigger] m[i].0) && scalar_ok(
        m[i].1,
    ) by {
        crate::encode::lemma_escape_ok(encode_utf8(fields[i].0));
    }
}

/// Log Record
///
/// Each log entry is a record: a level, where it was made, and a buffer that
/// holds the JSON object written so far. The logger recycles records so that
/// their buffers are reused.
#[derive(Debug, Clone)]
pub struct Record {
    level: Level,
    cache: Vec<u8>,
    source: Source,
}

impl View for Record {
    type V = RecordView;

    closed spec fn view(&self) -> RecordView {
        RecordView { level: self.level, bytes: self.cache@, source: self.source }
    }
}

impl Record {
    /// Create a new record whose buffer has room for `capacity` bytes.
    pub fn new(level: Level, capacity: usize, source: Source) -> (r: Self)
        ensures
            r@ == (RecordView { level, bytes: opened(), source }),
    {
        let mut cache: Vec<u8> = Vec::with_capacity(capacity);
        cache.push(123);
        Record { level, cache, source }
    }

    /// Reset a record for reuse: the buffer keeps its storage and goes back
    /// to the opening brace; level and source are replaced.
    pub fn set(record: Record, level: Level, source: Source) -> (r: Self)
        ensures
            r@ == (RecordView { level, bytes: opened(), source }),
    {
        let mut record = record;
        record.level = level;
        record.cache.clear();
        record.cache.push(123);
        record.source = source;
        assert(record.cache@ =~= opened());
        record
    }

    /// Current record's log level
    pub fn level(&self) -> (r: Level)
        ensures
            r == self@.level,
    {
        self.level
    }

    /// Current record's source info
    pub fn source(&self) -> (r: &Source)
        ensures
            *r == self@.source,
    {
        &self.source
    }

    /// Append a field: the key as a JSON string, a colon, the value's JSON
    /// text and a comma. Fields stay in the order they are appended; equal
    /// keys are kept.
    pub fn append<T: Encode>(&mut self, key: &str, val: &T) -> (r: &mut Self)
        ensures
            r@ == (RecordView {
                bytes: old(self)@.bytes + field(key@, val.encoding()),
                ..old(self)@
            }),
            *final(self) == *final(r),
    {
        let ghost start = self.cache@;
        key.encode(&mut self.cache);
        self.cache.push(58);
        val.encode(&mut self.cache);
        self.cache.push(44);
        assert(self.cache@ =~= start + field(key@, val.encoding()));
        self
    }

    /// Mark the end of the record: the trailing comma, if any, becomes the
    /// closing brace, else one is added; then a newline.
    pub fn finish(&mut self)
        ensures
            final(self)@ == (RecordView { bytes: sealed(old(self)@.bytes), ..old(self)@ }),
    {
        let ghost start = self.cache@;
        let n = self.cache.len();
        if n > 0 && self.cache[n - 1] == 44 {
            self.cache.set(n - 1, 125);
        } else {
            self.cache.push(125);
        }
        self.cache.push(10);
        assert(self.cache@ =~= sealed(start));
    }

    /// The bytes written so far.
    pub fn buffer(&self) -> (r: &Vec<u8>)
        ensures
            r@ == self@.bytes,
    {
        &self.cache
    }
}

} // verus!
