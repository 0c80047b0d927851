//! Account store: an in-memory snapshot of username/password records,
//! loaded from and flushed to a semicolon-delimited `key=value` line
//! format, one record per line (`username=alice;password=secret`).
//!
//! The store itself does not enforce username uniqueness; callers check
//! with a lookup before inserting.
use crate::text::{
    bytes_eq, find_byte, lemma_find_bounds, lemma_find_is, spec_find, spec_split, split_byte,
    subvec,
};
use vstd::prelude::*;

verus! {

/// Line separator of the persisted layout.
pub const NL: u8 = 0x0a;

/// Field separator of the persisted layout.
pub const SEMI: u8 = 0x3b;

/// Key/value separator of the persisted layout.
pub const EQ: u8 = 0x3d;

/// The bytes of the key `username`.
pub open spec fn key_username() -> Seq<u8> {
    seq![0x75u8, 0x73u8, 0x65u8, 0x72u8, 0x6eu8, 0x61u8, 0x6du8, 0x65u8]
}

/// The bytes of the key `password`.
pub open spec fn key_password() -> Seq<u8> {
    seq![0x70u8, 0x61u8, 0x73u8, 0x73u8, 0x77u8, 0x6fu8, 0x72u8, 0x64u8]
}

/// Runtime copy of the key `username`.
pub fn key_username_bytes() -> (r: Vec<u8>)
    ensures
        r@ == key_username(),
{
    let mut r: Vec<u8> = Vec::new();
    r.push(0x75);
    r.push(0x73);
    r.push(0x65);
    r.push(0x72);
    r.push(0x6e);
    r.push(0x61);
    r.push(0x6d);
    r.push(0x65);
    proof {
        assert(r@ =~= key_username());
    }
    r
}

/// Runtime copy of the key `password`.
pub fn key_password_bytes() -> (r: Vec<u8>)
    ensures
        r@ == key_password(),
{
    let mut r: Vec<u8> = Vec::new();
    r.push(0x70);
    r.push(0x61);
    r.push(0x73);
    r.push(0x73);
    r.push(0x77);
    r.push(0x6f);
    r.push(0x72);
    r.push(0x64);
    proof {
        assert(r@ =~= key_password());
    }
    r
}

/// Value of the first `key=value` field in `fields` whose key is `key`;
/// a field without `=` has no key.
pub open spec fn spec_first_value(fields: Seq<Seq<u8>>, key: Seq<u8>) -> Option<Seq<u8>>
    decreases fields.len(),
{
    if fields.len() == 0 {
        None
    } else {
        let f = fields[0];
        let k = spec_find(f, EQ);
        if k < f.len() && f.take(k) == key {
            Some(f.skip(k + 1))
        } else {
            spec_first_value(fields.drop_first(), key)
        }
    }
}

/// The record a line yields: the values of its first `username` and first
/// `password` fields, or nothing when either key is missing.
pub open spec fn spec_line_record(line: Seq<u8>) -> Option<(Seq<u8>, Seq<u8>)> {
    let fields = spec_split(line, SEMI);
    match spec_first_value(fields, key_username()) {
        None => None,
        Some(u) => match spec_first_value(fields, key_password()) {
            None => None,
            Some(p) => Some((u, p)),
        },
    }
}

/// Records of a sequence of lines, in order; lines without a record are
/// skipped.
pub open spec fn spec_records_of_lines(lines: Seq<Seq<u8>>) -> Seq<(Seq<u8>, Seq<u8>)>
    decreases lines.len(),
{
    if lines.len() == 0 {
        Seq::empty()
    } else {
        (match spec_line_record(lines[0]) {
            Some(r) => seq![r],
            None => Seq::empty(),
        }) + spec_records_of_lines(lines.drop_first())
    }
}

/// All records held in a persisted store file.
pub open spec fn spec_records(file: Seq<u8>) -> Seq<(Seq<u8>, Seq<u8>)> {
    spec_records_of_lines(spec_split(file, NL))
}

/// The persisted line of one record.
pub open spec fn spec_record_line(r: (Seq<u8>, Seq<u8>)) -> Seq<u8> {
    key_username() + seq![EQ] + r.0 + seq![SEMI] + key_password() + seq![EQ] + r.1
}

/// The persisted form of a whole record sequence.
pub open spec fn spec_serialize(records: Seq<(Seq<u8>, Seq<u8>)>) -> Seq<u8>
    decreases records.len(),
{
    if records.len() == 0 {
        Seq::empty()
    } else if records.len() == 1 {
        spec_record_line(records[0])
    } else {
        spec_record_line(records[0]) + seq![NL] + spec_serialize(records.drop_first())
    }
}

/// A username or password that the persisted layout can carry: free of the
/// line and field separators.
pub open spec fn wf_text(s: Seq<u8>) -> bool {
    forall|i: int| 0 <= i < s.len() ==> s[i] != NL && #[trigger] s[i] != SEMI
}

/// A record the persisted layout can carry.
pub open spec fn wf_record(r: (Seq<u8>, Seq<u8>)) -> bool {
    wf_text(r.0) && wf_text(r.1)
}

pub open spec fn wf_records(records: Seq<(Seq<u8>, Seq<u8>)>) -> bool {
    forall|i: int| 0 <= i < records.len() ==> wf_record(#[trigger] records[i])
}

/// Three-way lookup result: login and creation need to tell a missing
/// account from one with the wrong password.
#[derive(Clone, Copy, Debug, PartialEq, Eq, Structural)]
pub enum LookupResult {
    Absent,
    ExistsWrongPassword,
    ExistsCorrectPassword,
}

/// What looking `username`/`password` up in `records` yields: the first
/// record with that username decides.
pub open spec fn spec_lookup(
    records: Seq<(Seq<u8>, Seq<u8>)>,
    username: Seq<u8>,
    password: Seq<u8>,
) -> LookupResult
    decreases records.len(),
{
    if records.len() == 0 {
        LookupResult::Absent
    } else if records[0].0 == username {
        if records[0].1 == password {
            LookupResult::ExistsCorrectPassword
        } else {
            LookupResult::ExistsWrongPassword
        }
    } else {
        spec_lookup(records.drop_first(), username, password)
    }
}

/// One stored account.
pub struct AccountRecord {
    pub username: Vec<u8>,
    pub password: Vec<u8>,
}

impl DeepView for AccountRecord {
    type V = (Seq<u8>, Seq<u8>);

    open spec fn deep_view(&self) -> (Seq<u8>, Seq<u8>) {
        (self.username@, self.password@)
    }
}

/// The in-memory account snapshot.
pub struct AccountStore {
    pub records: Vec<AccountRecord>,
}

impl View for AccountStore {
    type V = Seq<(Seq<u8>, Seq<u8>)>;

    open spec fn view(&self) -> Seq<(Seq<u8>, Seq<u8>)> {
        self.records.deep_view()
    }
}

impl AccountStore {
    /// An empty store.
    pub fn new() -> (s: AccountStore)
        ensures
            s@ == Seq::<(Seq<u8>, Seq<u8>)>::empty(),
    {
        let s = AccountStore { records: Vec::new() };
        proof {
            assert(s@ =~= Seq::<(Seq<u8>, Seq<u8>)>::empty());
        }
        s
    }

    /// Three-way credential check against the snapshot.
    pub fn lookup(&self, username: &Vec<u8>, password: &Vec<u8>) -> (r: LookupResult)
        ensures
            r == spec_lookup(self@, username@, password@),
    {
        let mut i: usize = 0;
        proof {
            assert(self@.skip(0) =~= self@);
        }
        while i < self.records.len()
            invariant
                i <= self.records@.len(),
                self@.len() == self.records@.len(),
                spec_lookup(self@, username@, password@) == spec_lookup(
                    self@.skip(i as int),
                    username@,
                    password@,
                ),
            decreases self.records@.len() - i,
        {
            let ghost rest = self@.skip(i as int);
            proof {
                assert(rest[0] == self.records@[i as int].deep_view());
                assert(rest.drop_first() =~= self@.skip(i + 1));
            }
            if bytes_eq(&self.records[i].username, username) {
                if bytes_eq(&self.records[i].password, password) {
                    return LookupResult::ExistsCorrectPassword;
                } else {
                    return LookupResult::ExistsWrongPassword;
                }
            }
            i += 1;
        }
        proof {
            assert(self@.skip(self.records@.len() as int) =~= Seq::<(Seq<u8>, Seq<u8>)>::empty());
        }
        LookupResult::Absent
    }

    /// Append a record; uniqueness is the caller's concern.
    pub fn insert(&mut self, username: Vec<u8>, password: Vec<u8>)
        ensures
            final(self)@ == old(self)@.push((username@, password@)),
    {
        let ghost prev = self@;
        let ghost u = username@;
        let ghost p = password@;
        self.records.push(AccountRecord { username, password });
        proof {
            assert(self@ =~~= prev.push((u, p)));
        }
    }

    /// Load a snapshot from the persisted bytes.
    pub fn from_bytes(file: &Vec<u8>) -> (s: AccountStore)
        ensures
            s@ == spec_records(file@),
    {
        let lines = split_byte(file, NL);
        let mut records: Vec<AccountRecord> = Vec::new();
        let mut i: usize = 0;
        proof {
            assert(lines.deep_view().skip(0) =~= lines.deep_view());
            assert(records.deep_view() + spec_records(file@) =~= spec_records(file@));
        }
        while i < lines.len()
            invariant
                i <= lines@.len(),
                lines@.len() == lines.deep_view().len(),
                records.deep_view() + spec_records_of_lines(lines.deep_view().skip(i as int))
                    == spec_records(file@),
            decreases lines@.len() - i,
        {
            let ghost rest = lines.deep_view().skip(i as int);
            proof {
                assert(rest[0] == lines@[i as int]@);
                assert(rest.drop_first() =~= lines.deep_view().skip(i + 1));
            }
            let ghost prev = records.deep_view();
            match parse_line(&lines[i]) {
                Some(rec) => {
                    let ghost rv = rec.deep_view();
                    records.push(rec);
                    proof {
                        assert(records.deep_view() =~~= prev.push(rv));
                        assert(prev.push(rv) + spec_records_of_lines(
                            lines.deep_view().skip(i + 1),
                        ) =~= prev + spec_records_of_lines(rest));
                    }
                },
                None => {
                    proof {
                        assert(prev + spec_records_of_lines(lines.deep_view().skip(i + 1)) =~= prev
                            + spec_records_of_lines(rest));
                    }
                },
            }
            i += 1;
        }
        proof {
            assert(lines.deep_view().skip(lines@.len() as int) =~= Seq::<Seq<u8>>::empty());
            assert(records.deep_view() + Seq::<(Seq<u8>, Seq<u8>)>::empty() =~= records.deep_view());
        }
        AccountStore { records }
    }

    /// The persisted bytes of the whole snapshot.
    pub fn to_bytes(&self) -> (r: Vec<u8>)
        ensures
            r@ == spec_serialize(self@),
    {
        let mut r: Vec<u8> = Vec::new();
        let mut i: usize = 0;
        proof {
            assert(self@.skip(0) =~= self@);
            assert(r@ + spec_serialize(self@) =~= spec_serialize(self@));
        }
        while i < self.records.len()
            invariant
                i <= self.records@.len(),
                self@.len() == self.records@.len(),
                r@ + spec_serialize(self@.skip(i as int)) == spec_serialize(self@),
            decreases self.records@.len() - i,
        {
            let ghost rest = self@.skip(i as int);
            let ghost before = r@;
            proof {
                assert(rest[0] == self.records@[i as int].deep_view());
                assert(rest.drop_first() =~= self@.skip(i + 1));
            }
            let mut ku = key_username_bytes();
            r.append(&mut ku);
            r.push(EQ);
            crate::text::append_bytes(&mut r, &self.records[i].username);
            r.push(SEMI);
            let mut kp = key_password_bytes();
            r.append(&mut kp);
            r.push(EQ);
            crate::text::append_bytes(&mut r, &self.records[i].password);
            if i + 1 < self.records.len() {
                r.push(NL);
                proof {
                    assert(r@ =~= before + (spec_record_line(rest[0]) + seq![NL]));
                    assert(r@ + spec_serialize(self@.skip(i + 1)) =~= before + spec_serialize(
                        rest,
                    ));
                }
            } else {
                proof {
                    assert(r@ =~= before + spec_record_line(rest[0]));
                    assert(self@.skip(i + 1) =~= Seq::<(Seq<u8>, Seq<u8>)>::empty());
                    assert(r@ + spec_serialize(self@.skip(i + 1)) =~= before + spec_serialize(
                        rest,
                    ));
                }
            }
            i += 1;
        }
        proof {
            assert(self@.skip(self.records@.len() as int) =~= Seq::<(Seq<u8>, Seq<u8>)>::empty());
            assert(r@ + Seq::<u8>::empty() =~= r@);
        }
        r
    }
}

/// Value of the first field with the given key, scanning in order.
fn first_value(fields: &Vec<Vec<u8>>, key: &Vec<u8>) -> (r: Option<Vec<u8>>)
    ensures
        r is Some <==> spec_first_value(fields.deep_view(), key@) is Some,
        r is Some ==> spec_first_value(fields.deep_view(), key@) == Some(r->0@),
{
    let mut i: usize = 0;
    proof {
        assert(fields.deep_view().skip(0) =~= fields.deep_view());
    }
    while i < fields.len()
        invariant
            i <= fields@.len(),
            fields@.len() == fields.deep_view().len(),
            spec_first_value(fields.deep_view(), key@) == spec_first_value(
                fields.deep_view().skip(i as int),
                key@,
            ),
        decreases fields@.len() - i,
    {
        let ghost rest = fields.deep_view().skip(i as int);
        proof {
            assert(rest[0] == fields@[i as int]@);
            assert(rest.drop_first() =~= fields.deep_view().skip(i + 1));
        }
        let f = &fields[i];
        proof {
            lemma_find_bounds(f@, EQ);
        }
        let k = find_byte(f, EQ);
        if k < f.len() {
            let fkey = subvec(f, 0, k);
            proof {
                assert(fkey@ =~= f@.take(k as int));
            }
            if bytes_eq(&fkey, key) {
                let value = subvec(f, k + 1, f.len());
                proof {
                    assert(value@ =~= f@.skip(k + 1));
                }
                return Some(value);
            }
        }
        i += 1;
    }
    proof {
        assert(fields.deep_view().skip(fields@.len() as int) =~= Seq::<Seq<u8>>::empty());
    }
    None
}

/// Does an account with these credentials exist in the persisted bytes?
/// The first component says whether the username exists at all, the second
/// whether the password also matches.
pub fn account_exists(file: &Vec<u8>, username: &Vec<u8>, password: &Vec<u8>) -> (r: (bool, bool))
    ensures
        r.0 == (spec_lookup(spec_records(file@), username@, password@) != LookupResult::Absent),
        r.1 == (spec_lookup(spec_records(file@), username@, password@)
            == LookupResult::ExistsCorrectPassword),
{
    let s = AccountStore::from_bytes(file);
    match s.lookup(username, password) {
        LookupResult::Absent => (false, false),
        LookupResult::ExistsWrongPassword => (true, false),
        LookupResult::ExistsCorrectPassword => (true, true),
    }
}

/// Append a new account record to the persisted bytes, on a line of its
/// own.
pub fn create_user(file_contents: &mut Vec<u8>, username: &Vec<u8>, password: &Vec<u8>)
    ensures
        final(file_contents)@ == old(file_contents)@ + seq![NL] + spec_record_line(
            (username@, password@),
        ),
{
    file_contents.push(NL);
    let mut ku = key_username_bytes();
    file_contents.append(&mut ku);
    file_contents.push(EQ);
    crate::text::append_bytes(file_contents, username);
    file_contents.push(SEMI);
    let mut kp = key_password_bytes();
    file_contents.append(&mut kp);
    file_contents.push(EQ);
    crate::text::append_bytes(file_contents, password);
    proof {
        assert(file_contents@ =~= old(file_contents)@ + seq![NL] + spec_record_line(
            (username@, password@),
        ));
    }
}

/// Splitting distributes over concatenation around one delimiter
/// occurrence.
pub proof fn lemma_split_concat(a: Seq<u8>, b: Seq<u8>, d: u8)
    ensures
        spec_split(a + seq![d] + b, d) == spec_split(a, d) + spec_split(b, d),
    decreases a.len(),
{
    let s = a + seq![d] + b;
    let k = spec_find(a, d);
    lemma_find_bounds(a, d);
    if k == a.len() {
        lemma_find_is(s, d, a.len() as int);
        assert(s.take(a.len() as int) =~= a);
        assert(s.skip(a.len() as int + 1) =~= b);
        assert(spec_split(s, d) =~= spec_split(a, d) + spec_split(b, d));
    } else {
        lemma_find_is(s, d, k);
        assert(s.take(k) =~= a.take(k));
        assert(s.skip(k + 1) =~= a.skip(k + 1) + seq![d] + b);
        lemma_split_concat(a.skip(k + 1), b, d);
        assert(spec_split(s, d) =~= spec_split(a, d) + spec_split(b, d));
    }
}

/// Record extraction distributes over concatenation of line sequences.
pub proof fn lemma_records_of_lines_concat(l1: Seq<Seq<u8>>, l2: Seq<Seq<u8>>)
    ensures
        spec_records_of_lines(l1 + l2) == spec_records_of_lines(l1) + spec_records_of_lines(l2),
    decreases l1.len(),
{
    if l1.len() == 0 {
        assert(l1 + l2 =~= l2);
        assert(spec_records_of_lines(l1) + spec_records_of_lines(l2) =~= spec_records_of_lines(
            l2,
        ));
    } else {
        assert((l1 + l2)[0] == l1[0]);
        assert((l1 + l2).drop_first() =~= l1.drop_first() + l2);
        lemma_records_of_lines_concat(l1.drop_first(), l2);
        assert(spec_records_of_lines(l1 + l2) =~= spec_records_of_lines(l1)
            + spec_records_of_lines(l2));
    }
}

/// The persisted line of a well-formed record parses back to exactly that
/// record, and contains no line separator.
pub proof fn lemma_line_roundtrip(u: Seq<u8>, p: Seq<u8>)
    requires
        wf_text(u),
        wf_text(p),
    ensures
        spec_line_record(spec_record_line((u, p))) == Some((u, p)),
        forall|i: int|
            0 <= i < spec_record_line((u, p)).len() ==> #[trigger] spec_record_line((u, p))[i]
                != NL,
{
    let line = spec_record_line((u, p));
    let f0 = key_username() + seq![EQ] + u;
    let f1 = key_password() + seq![EQ] + p;
    assert(line =~= f0 + seq![SEMI] + f1);
    assert forall|i: int| 0 <= i < f0.len() implies f0[i] != SEMI && f0[i] != NL by {
        if i < 8 {
            assert(f0[i] == key_username()[i]);
        } else if i == 8 {
        } else {
            assert(f0[i] == u[i - 9]);
        }
    }
    assert forall|i: int| 0 <= i < f1.len() implies f1[i] != SEMI && f1[i] != NL by {
        if i < 8 {
            assert(f1[i] == key_password()[i]);
        } else if i == 8 {
        } else {
            assert(f1[i] == p[i - 9]);
        }
    }
    assert forall|i: int| 0 <= i < line.len() implies line[i] != NL by {
        if i < f0.len() {
            assert(line[i] == f0[i]);
        } else if i == f0.len() {
        } else {
            assert(line[i] == f1[i - f0.len() - 1]);
        }
    }
    lemma_split_concat(f0, f1, SEMI);
    lemma_find_is(f0, SEMI, f0.len() as int);
    lemma_find_is(f1, SEMI, f1.len() as int);
    let fields = spec_split(line, SEMI);
    assert(fields =~= seq![f0] + seq![f1]);
    lemma_find_is(f0, EQ, 8);
    lemma_find_is(f1, EQ, 8);
    assert(f0.take(8) =~= key_username());
    assert(f0.skip(9) =~= u);
    assert(f1.take(8) =~= key_password());
    assert(f1.skip(9) =~= p);
    assert(spec_first_value(fields, key_username()) == Some(u));
    assert(fields.drop_first() =~= seq![f1]);
    assert(f0.take(8) != key_password()) by {
        assert(key_username()[0] != key_password()[0]);
    }
    assert(spec_first_value(fields, key_password()) == spec_first_value(seq![f1], key_password()));
    assert(spec_first_value(seq![f1], key_password()) == Some(p));
}

/// A line that parses to a record contributes exactly that record.
proof fn lemma_singleton_records(line: Seq<u8>, r: (Seq<u8>, Seq<u8>))
    requires
        spec_line_record(line) == Some(r),
    ensures
        spec_records_of_lines(seq![line]) == seq![r],
{
    let lines = seq![line];
    assert(lines.drop_first() =~= Seq::<Seq<u8>>::empty());
    assert(spec_records_of_lines(Seq::<Seq<u8>>::empty()) == Seq::<(Seq<u8>, Seq<u8>)>::empty());
    assert(spec_records_of_lines(lines) =~= seq![r]);
}

/// An empty persisted file holds no records.
pub proof fn lemma_records_empty_file()
    ensures
        spec_records(Seq::<u8>::empty()) == Seq::<(Seq<u8>, Seq<u8>)>::empty(),
{
    let e = Seq::<u8>::empty();
    assert(spec_split(e, NL) =~= seq![e]);
    assert(spec_split(e, SEMI) =~= seq![e]);
    let fields = seq![e];
    assert(fields.drop_first() =~= Seq::<Seq<u8>>::empty());
    assert(spec_first_value(Seq::<Seq<u8>>::empty(), key_username()) is None);
    assert(spec_first_value(fields, key_username()) == spec_first_value(
        Seq::<Seq<u8>>::empty(),
        key_username(),
    ));
    assert(spec_line_record(e) is None);
    assert(spec_records_of_lines(Seq::<Seq<u8>>::empty()) == Seq::<(Seq<u8>, Seq<u8>)>::empty());
    assert(spec_records_of_lines(seq![e]) =~= Seq::<(Seq<u8>, Seq<u8>)>::empty());
}

/// Round trip of the whole store: parsing the persisted bytes of a
/// well-formed record sequence yields exactly that sequence, so what is on
/// disk after a flush equals what was in memory.
pub proof fn lemma_store_roundtrip(records: Seq<(Seq<u8>, Seq<u8>)>)
    requires
        wf_records(records),
    ensures
        spec_records(spec_serialize(records)) == records,
    decreases records.len(),
{
    if records.len() == 0 {
        lemma_records_empty_file();
        assert(spec_records(spec_serialize(records)) =~= records);
    } else if records.len() == 1 {
        let r0 = records[0];
        assert(wf_record(r0));
        lemma_line_roundtrip(r0.0, r0.1);
        let line = spec_record_line(r0);
        lemma_find_is(line, NL, line.len() as int);
        assert(spec_split(line, NL) =~= seq![line]);
        assert((r0.0, r0.1) == r0);
        lemma_singleton_records(line, r0);
        assert(spec_records(spec_serialize(records)) =~= records);
    } else {
        let r0 = records[0];
        let rest = records.drop_first();
        assert(wf_record(r0));
        assert forall|i: int| 0 <= i < rest.len() implies wf_record(#[trigger] rest[i]) by {
            assert(rest[i] == records[i + 1]);
        }
        let line = spec_record_line(r0);
        lemma_line_roundtrip(r0.0, r0.1);
        lemma_find_is(line, NL, line.len() as int);
        assert(spec_split(line, NL) =~= seq![line]);
        lemma_split_concat(line, spec_serialize(rest), NL);
        lemma_store_roundtrip(rest);
        lemma_records_of_lines_concat(seq![line], spec_split(spec_serialize(rest), NL));
        assert(spec_serialize(records) =~= line + seq![NL] + spec_serialize(rest));
        assert((r0.0, r0.1) == r0);
        lemma_singleton_records(line, r0);
        assert(spec_records(spec_serialize(records)) =~= records);
    }
}

/// Appending a well-formed record line to any persisted bytes appends
/// exactly that record to the parsed store.
pub proof fn lemma_append_record(file: Seq<u8>, u: Seq<u8>, p: Seq<u8>)
    requires
        wf_text(u),
        wf_text(p),
    ensures
        spec_records(file + seq![NL] + spec_record_line((u, p))) == spec_records(file).push(
            (u, p),
        ),
{
    let line = spec_record_line((u, p));
    lemma_line_roundtrip(u, p);
    lemma_find_is(line, NL, line.len() as int);
    assert(spec_split(line, NL) =~= seq![line]);
    lemma_split_concat(file, line, NL);
    lemma_records_of_lines_concat(spec_split(file, NL), seq![line]);
    lemma_singleton_records(line, (u, p));
    assert(spec_records(file + seq![NL] + line) =~= spec_records(file).push((u, p)));
}

/// An empty store knows no account: lookup is absent for any credentials.
pub proof fn lemma_lookup_empty(username: Seq<u8>, password: Seq<u8>)
    ensures
        spec_lookup(Seq::empty(), username, password) == LookupResult::Absent,
{
}

/// Parse one persisted line into a record, if it has both keys.
fn parse_line(line: &Vec<u8>) -> (r: Option<AccountRecord>)
    ensures
        r is Some <==> spec_line_record(line@) is Some,
        r is Some ==> spec_line_record(line@) == Some(r->0.deep_view()),
{
    let fields = split_byte(line, SEMI);
    let ku = key_username_bytes();
    let kp = key_password_bytes();
    match first_value(&fields, &ku) {
        None => None,
        Some(u) => match first_value(&fields, &kp) {
            None => None,
            Some(p) => Some(AccountRecord { username: u, password: p }),
        },
    }
}

} // verus!
