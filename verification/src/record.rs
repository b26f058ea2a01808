//! The record form of a hasher: its state as named fields.
//!
//! A hasher that tracks its writes is the record `hash`, `used`, in that
//! order; one that does not is the record `hash` alone. Reading a record back
//! takes the fields in any order, one at a time, and refuses a field that the
//! record does not have, a field that comes twice, and a record that ends
//! with a field missing.

use crate::hasher::{HasherState, IdentityHasher, Reuse};
use vstd::prelude::*;
use vstd::string::StringSliceAdditionalSpecFns;

verus! {

/// The name of the record.
pub const RECORD_NAME: &'static str = "IdentityHasher";

/// A field of the record.
#[derive(Clone, Copy, Debug, PartialEq, Eq, Structural)]
pub enum Field {
    /// The digest.
    Hash,
    /// Whether a write has been accepted. Only the record of a hasher that
    /// tracks its writes has it.
    Used,
}

/// A field with its value.
#[derive(Clone, Copy, Debug, PartialEq, Eq, Structural)]
pub enum Entry {
    /// The digest.
    Hash(u64),
    /// Whether a write has been accepted.
    Used(bool),
}

/// Why a record was refused.
#[derive(Clone, Copy, Debug, PartialEq, Eq, Structural)]
pub enum RecordError {
    /// A field that the record does not have.
    UnknownField,
    /// A field that the record already holds.
    DuplicateField(Field),
    /// The record ended without this field.
    MissingField(Field),
}

impl Field {
    /// The name under which the field is written.
    pub open spec fn spec_name(self) -> Seq<char> {
        match self {
            Field::Hash => "hash"@,
            Field::Used => "used"@,
        }
    }

    /// The field that `name` stands for in the record of a hasher that is
    /// `checked` or not. `used` is no field of an unchecked one.
    pub open spec fn named(name: Seq<char>, checked: bool) -> Result<Field, RecordError> {
        if name == Field::Hash.spec_name() {
            Ok(Field::Hash)
        } else if checked && name == Field::Used.spec_name() {
            Ok(Field::Used)
        } else {
            Err(RecordError::UnknownField)
        }
    }

    /// The name under which the field is written.
    pub fn name(self) -> (name: &'static str)
        ensures
            name@ == self.spec_name(),
    {
        match self {
            Field::Hash => "hash",
            Field::Used => "used",
        }
    }

    /// Finds the field that `name` stands for, or refuses the name with
    /// `UnknownField`.
    pub fn from_name(name: &str, checked: bool) -> (result: Result<Field, RecordError>)
        ensures
            result == Field::named(name@, checked),
    {
        if same_text(name, Field::Hash.name()) {
            Ok(Field::Hash)
        } else if checked && same_text(name, Field::Used.name()) {
            Ok(Field::Used)
        } else {
            Err(RecordError::UnknownField)
        }
    }
}

/// Whether two strings hold the same characters.
fn same_text(left: &str, right: &str) -> (same: bool)
    ensures
        same == (left@ == right@),
{
    let a = left.as_bytes();
    let b = right.as_bytes();
    proof {
        // Equal encodings decode to equal texts.
        vstd::utf8::encode_utf8_decode_utf8(left@);
        vstd::utf8::encode_utf8_decode_utf8(right@);
    }
    if a.len() != b.len() {
        return false;
    }
    let mut i: usize = 0;
    while i < a.len()
        invariant
            a@ == left.spec_bytes(),
            b@ == right.spec_bytes(),
            a@.len() == b@.len(),
            i <= a@.len(),
            a@.take(i as int) == b@.take(i as int),
        decreases a@.len() - i,
    {
        if a[i] != b[i] {
            return false;
        }
        proof {
            assert(a@.take(i + 1) =~= a@.take(i as int).push(a@[i as int]));
            assert(b@.take(i + 1) =~= b@.take(i as int).push(b@[i as int]));
        }
        i = i + 1;
    }
    proof {
        assert(a@.take(i as int) =~= a@);
        assert(b@.take(i as int) =~= b@);
    }
    true
}

impl Entry {
    /// The field that the entry gives a value to.
    pub open spec fn spec_field(self) -> Field {
        match self {
            Entry::Hash(_) => Field::Hash,
            Entry::Used(_) => Field::Used,
        }
    }

    /// The field that the entry gives a value to.
    #[verifier::when_used_as_spec(spec_field)]
    pub fn field(self) -> (field: Field)
        ensures
            field == self.spec_field(),
    {
        match self {
            Entry::Hash(_) => Field::Hash,
            Entry::Used(_) => Field::Used,
        }
    }
}

/// The record of a hasher in `state`: `hash`, then `used` where the hasher
/// tracks its writes.
pub open spec fn encode(state: HasherState) -> Seq<Entry> {
    match state.reuse {
        Reuse::Untracked => seq![Entry::Hash(state.digest)],
        Reuse::Fresh => seq![Entry::Hash(state.digest), Entry::Used(false)],
        Reuse::Spent => seq![Entry::Hash(state.digest), Entry::Used(true)],
    }
}

/// What a reader has taken in so far.
pub struct ReaderState {
    /// Whether the record is that of a hasher that tracks its writes.
    pub checked: bool,
    /// The digest, once its field was read.
    pub hash: Option<u64>,
    /// The flag, once its field was read.
    pub used: Option<bool>,
}

impl ReaderState {
    /// A reader that has read nothing.
    pub open spec fn new(checked: bool) -> ReaderState {
        ReaderState { checked, hash: None, used: None }
    }

    /// Whether the record has this field at all.
    pub open spec fn expects(self, field: Field) -> bool {
        field == Field::Hash || self.checked
    }

    /// Whether this field was read.
    pub open spec fn holds(self, field: Field) -> bool {
        match field {
            Field::Hash => self.hash is Some,
            Field::Used => self.used is Some,
        }
    }

    /// How many fields were read.
    pub open spec fn count(self) -> nat {
        (if self.hash is Some {
            1nat
        } else {
            0nat
        }) + (if self.used is Some {
            1nat
        } else {
            0nat
        })
    }

    /// Whether a value for `field` may come next: not for a field that the
    /// record does not have, nor for one that was read.
    pub open spec fn permit(self, field: Field) -> Result<(), RecordError> {
        if !self.expects(field) {
            Err(RecordError::UnknownField)
        } else if self.holds(field) {
            Err(RecordError::DuplicateField(field))
        } else {
            Ok(())
        }
    }

    /// What taking in one entry answers, and the state it leaves. An entry
    /// that is refused changes nothing.
    pub open spec fn accept(self, entry: Entry) -> (Result<(), RecordError>, ReaderState) {
        match self.permit(entry.spec_field()) {
            Err(error) => (Err(error), self),
            Ok(()) => (
                Ok(()),
                match entry {
                    Entry::Hash(digest) => ReaderState { hash: Some(digest), ..self },
                    Entry::Used(flag) => ReaderState { used: Some(flag), ..self },
                },
            ),
        }
    }

    /// The state after taking in `entries` one by one, or the first refusal.
    pub open spec fn accept_all(self, entries: Seq<Entry>) -> Result<ReaderState, RecordError>
        decreases entries.len(),
    {
        if entries.len() == 0 {
            Ok(self)
        } else {
            match self.accept_all(entries.drop_last()) {
                Err(error) => Err(error),
                Ok(state) => match state.accept(entries.last()).0 {
                    Err(error) => Err(error),
                    Ok(()) => Ok(state.accept(entries.last()).1),
                },
            }
        }
    }

    /// The first field, in the order in which a record is written, that was
    /// not read yet.
    pub open spec fn awaited(self) -> Option<Field> {
        if self.hash is None {
            Some(Field::Hash)
        } else if self.checked && self.used is None {
            Some(Field::Used)
        } else {
            None
        }
    }

    /// The hasher state that the fields make up, or the first field that is
    /// missing.
    pub open spec fn finish(self) -> Result<HasherState, RecordError> {
        match self.awaited() {
            Some(field) => Err(RecordError::MissingField(field)),
            None => Ok(
                HasherState {
                    digest: self.hash->0,
                    reuse: if !self.checked {
                        Reuse::Untracked
                    } else if self.used->0 {
                        Reuse::Spent
                    } else {
                        Reuse::Fresh
                    },
                },
            ),
        }
    }
}

/// The hasher state that a whole record stands for, or why the record is
/// refused: the first entry that is refused, or else the first field
/// that is missing.
pub open spec fn decode(checked: bool, entries: Seq<Entry>) -> Result<HasherState, RecordError> {
    match ReaderState::new(checked).accept_all(entries) {
        Err(error) => Err(error),
        Ok(state) => state.finish(),
    }
}

/// Takes in the fields of a record one at a time.
pub struct RecordReader {
    checked: bool,
    hash: Option<u64>,
    used: Option<bool>,
}

impl View for RecordReader {
    type V = ReaderState;

    closed spec fn view(&self) -> ReaderState {
        ReaderState { checked: self.checked, hash: self.hash, used: self.used }
    }
}

impl RecordReader {
    /// A reader for the record of a hasher that is `checked` or not, with
    /// nothing read.
    pub fn new(checked: bool) -> (reader: Self)
        ensures
            reader@ == ReaderState::new(checked),
    {
        RecordReader { checked, hash: None, used: None }
    }

    /// Says whether a value for `field` may come next. To be asked before the
    /// value is read: a field that comes twice is refused unread.
    pub fn permit(&self, field: Field) -> (result: Result<(), RecordError>)
        ensures
            result == self@.permit(field),
    {
        match field {
            Field::Hash => {
                if self.hash.is_some() {
                    Err(RecordError::DuplicateField(Field::Hash))
                } else {
                    Ok(())
                }
            },
            Field::Used => {
                if !self.checked {
                    Err(RecordError::UnknownField)
                } else if self.used.is_some() {
                    Err(RecordError::DuplicateField(Field::Used))
                } else {
                    Ok(())
                }
            },
        }
    }

    /// Takes in one entry, or refuses it and stays as it was.
    pub fn accept(&mut self, entry: Entry) -> (result: Result<(), RecordError>)
        ensures
            (result, final(self)@) == old(self)@.accept(entry),
    {
        match self.permit(entry.field()) {
            Err(error) => Err(error),
            Ok(()) => {
                match entry {
                    Entry::Hash(digest) => {
                        self.hash = Some(digest);
                    },
                    Entry::Used(flag) => {
                        self.used = Some(flag);
                    },
                }
                Ok(())
            },
        }
    }

    /// How many fields were read.
    pub fn count(&self) -> (count: usize)
        ensures
            count == self@.count(),
    {
        let hash: usize = if self.hash.is_some() {
            1
        } else {
            0
        };
        let used: usize = if self.used.is_some() {
            1
        } else {
            0
        };
        hash + used
    }

    /// The field to read next where a record comes as bare values in written
    /// order, or `None` once it is complete.
    pub fn awaited(&self) -> (field: Option<Field>)
        ensures
            field == self@.awaited(),
    {
        if self.hash.is_none() {
            Some(Field::Hash)
        } else if self.checked && self.used.is_none() {
            Some(Field::Used)
        } else {
            None
        }
    }

    /// Makes the hasher out of the fields read, or names the first field that
    /// is missing.
    pub fn finish(self) -> (result: Result<IdentityHasher, RecordError>)
        ensures
            match self@.finish() {
                Ok(state) => result is Ok && result->Ok_0@ == state,
                Err(error) => result == Err::<IdentityHasher, RecordError>(error),
            },
    {
        match self.hash {
            None => Err(RecordError::MissingField(Field::Hash)),
            Some(digest) => {
                if !self.checked {
                    Ok(IdentityHasher::restore(digest, Reuse::Untracked))
                } else {
                    match self.used {
                        None => Err(RecordError::MissingField(Field::Used)),
                        Some(true) => Ok(IdentityHasher::restore(digest, Reuse::Spent)),
                        Some(false) => Ok(IdentityHasher::restore(digest, Reuse::Fresh)),
                    }
                }
            },
        }
    }
}

impl IdentityHasher {
    /// The record of this hasher.
    pub fn to_record(&self) -> (entries: Vec<Entry>)
        ensures
            entries@ == encode(self@),
    {
        let mut entries: Vec<Entry> = Vec::new();
        entries.push(Entry::Hash(self.finish()));
        match self.reuse() {
            Reuse::Untracked => {},
            Reuse::Fresh => {
                entries.push(Entry::Used(false));
            },
            Reuse::Spent => {
                entries.push(Entry::Used(true));
            },
        }
        entries
    }

    /// The hasher that a record stands for, `checked` or not, or why the
    /// record is refused.
    pub fn from_record(checked: bool, entries: &[Entry]) -> (result: Result<
        IdentityHasher,
        RecordError,
    >)
        ensures
            match decode(checked, entries@) {
                Ok(state) => result is Ok && result->Ok_0@ == state,
                Err(error) => result == Err::<IdentityHasher, RecordError>(error),
            },
    {
        let mut reader = RecordReader::new(checked);
        let mut i: usize = 0;
        proof {
            assert(entries@.take(0) =~= Seq::<Entry>::empty());
        }
        while i < entries.len()
            invariant
                i <= entries@.len(),
                ReaderState::new(checked).accept_all(entries@.take(i as int)) == Ok::<
                    ReaderState,
                    RecordError,
                >(reader@),
            decreases entries@.len() - i,
        {
            proof {
                assert(entries@.take(i + 1).drop_last() =~= entries@.take(i as int));
            }
            match reader.accept(entries[i]) {
                Err(error) => {
                    proof {
                        lemma_refusal_is_final(
                            ReaderState::new(checked),
                            entries@.take(i + 1),
                            entries@,
                        );
                    }
                    return Err(error);
                },
                Ok(()) => {},
            }
            i = i + 1;
        }
        proof {
            assert(entries@.take(i as int) =~= entries@);
        }
        reader.finish()
    }
}

/// Once a reader has refused an entry, it refuses every record that goes on
/// from there, for the same reason.
pub proof fn lemma_refusal_is_final(state: ReaderState, prefix: Seq<Entry>, entries: Seq<Entry>)
    requires
        prefix.len() <= entries.len(),
        prefix == entries.take(prefix.len() as int),
        state.accept_all(prefix) is Err,
    ensures
        state.accept_all(entries) == state.accept_all(prefix),
    decreases entries.len(),
{
    if prefix.len() < entries.len() {
        assert(entries.drop_last().take(prefix.len() as int) =~= prefix);
        lemma_refusal_is_final(state, prefix, entries.drop_last());
    } else {
        assert(prefix =~= entries);
    }
}

/// Every entry that a reader takes in adds one field to those it holds.
pub proof fn lemma_accepted_entries_are_counted(state: ReaderState, entries: Seq<Entry>)
    requires
        state.accept_all(entries) is Ok,
    ensures
        state.accept_all(entries)->Ok_0.count() == state.count() + entries.len(),
        state.accept_all(entries)->Ok_0.checked == state.checked,
    decreases entries.len(),
{
    if entries.len() > 0 {
        lemma_accepted_entries_are_counted(state, entries.drop_last());
    }
}

/// Writing a hasher as a record and reading the record back gives the state
/// of the hasher again.
pub proof fn law_record_round_trip(state: HasherState)
    ensures
        decode(state.is_checked(), encode(state)) == Ok::<HasherState, RecordError>(state),
{
    let entries = encode(state);
    let start = ReaderState::new(state.is_checked());
    assert(entries.drop_last().len() == 0 ==> start.accept_all(entries.drop_last()) == Ok::<
        ReaderState,
        RecordError,
    >(start));
    if entries.len() == 2 {
        let first = entries.drop_last();
        assert(first.drop_last().len() == 0);
        assert(start.accept_all(first.drop_last()) == Ok::<ReaderState, RecordError>(start));
        assert(first.last() == Entry::Hash(state.digest));
        assert(start.accept_all(first) == Ok::<ReaderState, RecordError>(
            ReaderState { hash: Some(state.digest), ..start },
        ));
    }
}

/// A hasher read back from its own record is equal to the hasher that wrote
/// it.
pub proof fn law_restored_hasher_is_equal(hasher: IdentityHasher, restored: IdentityHasher)
    requires
        decode(hasher@.is_checked(), encode(hasher@)) == Ok::<HasherState, RecordError>(restored@),
    ensures
        restored == hasher,
{
    law_record_round_trip(hasher@);
    restored.law_state_determines_hasher(hasher);
}

/// A reader that is given the values of a record in the order in which they
/// were written awaits each field in its turn, and none after the last.
pub proof fn law_written_order_is_awaited(state: HasherState, i: int)
    requires
        0 <= i <= encode(state).len(),
    ensures
        ({
            let start = ReaderState::new(state.is_checked());
            let read = start.accept_all(encode(state).take(i));
            &&& read is Ok
            &&& read->Ok_0.count() == i
            &&& read->Ok_0.awaited() == if i < encode(state).len() {
                Some(encode(state)[i].spec_field())
            } else {
                None
            }
        }),
{
    let start = ReaderState::new(state.is_checked());
    let entries = encode(state).take(i);
    let hash_read = ReaderState { hash: Some(state.digest), ..start };
    assert(encode(state)[0] == Entry::Hash(state.digest));
    if i == 1 {
        assert(entries.drop_last().len() == 0);
        assert(start.accept_all(entries.drop_last()) == Ok::<ReaderState, RecordError>(start));
        assert(entries.last() == Entry::Hash(state.digest));
        assert(start.accept_all(entries) == Ok::<ReaderState, RecordError>(hash_read));
    } else if i == 2 {
        let first = entries.drop_last();
        assert(first.drop_last().len() == 0);
        assert(start.accept_all(first.drop_last()) == Ok::<ReaderState, RecordError>(start));
        assert(first.last() == Entry::Hash(state.digest));
        assert(start.accept_all(first) == Ok::<ReaderState, RecordError>(hash_read));
        assert(entries.last() == encode(state)[1]);
    }
}

/// A record is accepted exactly if it holds each of its fields once and
/// nothing else, in the written order or the other one; it then stands for
/// the hasher with these values.
pub proof fn law_decode_accepts_complete_records(
    checked: bool,
    entries: Seq<Entry>,
    state: HasherState,
)
    ensures
        decode(checked, entries) == Ok::<HasherState, RecordError>(state) <==> state.is_checked()
            == checked && (entries == encode(state) || entries == encode(state).reverse()),
{
    let start = ReaderState::new(checked);
    let written = encode(state);
    if entries == written || entries == written.reverse() {
        if state.is_checked() == checked {
            if entries == written {
                law_record_round_trip(state);
            } else {
                assert(written.reverse().len() == written.len());
                if written.len() == 1 {
                    assert(written.reverse() =~= written);
                    law_record_round_trip(state);
                } else {
                    let first = entries.drop_last();
                    assert(first.drop_last().len() == 0);
                    assert(start.accept_all(first.drop_last()) == Ok::<ReaderState, RecordError>(
                        start,
                    ));
                    assert(first.last() == written[1]);
                    assert(entries.last() == written[0]);
                }
            }
        }
    }
    if decode(checked, entries) == Ok::<HasherState, RecordError>(state) {
        let read = start.accept_all(entries)->Ok_0;
        lemma_accepted_entries_are_counted(start, entries);
        assert(entries.len() == read.count());
        if entries.len() == 1 {
            assert(entries.drop_last().len() == 0);
            assert(entries =~= seq![entries.last()]);
        } else {
            let first = entries.drop_last();
            lemma_accepted_entries_are_counted(start, first);
            assert(first.drop_last().len() == 0);
            assert(entries =~= seq![first.last(), entries.last()]);
            assert(written.reverse() =~= seq![written[1], written[0]]);
        }
    }
}

/// A record in which no entry gives the digest is refused.
pub proof fn law_record_without_hash_is_refused(checked: bool, entries: Seq<Entry>)
    requires
        forall|i: int| 0 <= i < entries.len() ==> entries[i].spec_field() != Field::Hash,
    ensures
        decode(checked, entries) is Err,
{
    lemma_hash_comes_from_an_entry(ReaderState::new(checked), entries);
}

/// A reader holds no digest unless it held one before or an entry gave it.
proof fn lemma_hash_comes_from_an_entry(state: ReaderState, entries: Seq<Entry>)
    requires
        state.hash is None,
        forall|i: int| 0 <= i < entries.len() ==> entries[i].spec_field() != Field::Hash,
    ensures
        state.accept_all(entries) is Ok ==> state.accept_all(entries)->Ok_0.hash is None,
    decreases entries.len(),
{
    if entries.len() > 0 {
        lemma_hash_comes_from_an_entry(state, entries.drop_last());
    }
}

/// A record in which a field comes twice is refused.
pub proof fn law_record_with_duplicate_is_refused(
    checked: bool,
    entries: Seq<Entry>,
    i: int,
    j: int,
)
    requires
        0 <= i < j < entries.len(),
        entries[i].spec_field() == entries[j].spec_field(),
    ensures
        decode(checked, entries) is Err,
{
    let start = ReaderState::new(checked);
    if start.accept_all(entries) is Ok {
        lemma_accepted_entries_are_held(start, entries.take(j), i);
        lemma_accepting_goes_by_prefixes(start, entries.take(j + 1), entries);
        assert(entries.take(j + 1).drop_last() =~= entries.take(j));
    }
}

/// A reader that took in a record took in each of its beginnings.
proof fn lemma_accepting_goes_by_prefixes(
    state: ReaderState,
    prefix: Seq<Entry>,
    entries: Seq<Entry>,
)
    requires
        prefix.len() <= entries.len(),
        prefix == entries.take(prefix.len() as int),
        state.accept_all(entries) is Ok,
    ensures
        state.accept_all(prefix) is Ok,
{
    if state.accept_all(prefix) is Err {
        lemma_refusal_is_final(state, prefix, entries);
    }
}

/// A reader holds the field of every entry that it took in.
proof fn lemma_accepted_entries_are_held(state: ReaderState, entries: Seq<Entry>, i: int)
    requires
        0 <= i < entries.len(),
    ensures
        state.accept_all(entries) is Ok ==> state.accept_all(entries)->Ok_0.holds(
            entries[i].spec_field(),
        ),
    decreases entries.len(),
{
    if i < entries.len() - 1 {
        lemma_accepted_entries_are_held(state, entries.drop_last(), i);
    }
}

} // verus!
