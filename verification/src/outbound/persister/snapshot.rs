//! Point-in-time snapshot: the recovery baseline half of the persister.
//!
//! A `wincode`-serialized dump of the entire map: a length, then each key with its entry.
//! On recovery it's loaded first, then the log is replayed on top.
//!
//! [`Snapshot`] holds the dump's bytes. Whoever keeps it on disk writes them to a temporary
//! file and renames that over the live one, so a crash mid-write can never leave a
//! half-written snapshot.

use vstd::prelude::*;
use wincode::{ReadError, WriteError};

use crate::byte_map::ByteMap;
use crate::bytes;
use crate::domain::cache::{Data, Entry, EntryView};
use crate::domain::time::Milliseconds;

verus! {

/// `wincode::ReadError`, why bytes could not be read. Nothing is claimed of its contents.
#[verifier::external_type_specification]
#[verifier::external_body]
pub struct ExReadError(wincode::ReadError);

/// `wincode::WriteError`, why a value could not be written. Nothing is claimed of its
/// contents.
#[verifier::external_type_specification]
#[verifier::external_body]
pub struct ExWriteError(wincode::WriteError);

/// One key with its entry: the value and the deadline.
pub type Row = (Vec<u8>, (Vec<u8>, Option<u64>));

/// What a [`Row`] stands for.
pub type RowView = (Seq<u8>, (Seq<u8>, Option<u64>));

/// What a list of rows stands for.
pub open spec fn row_views(rows: Seq<Row>) -> Seq<RowView> {
    rows.map_values(|r: Row| (r.0@, (r.1.0@, r.1.1)))
}

/// How many bytes `wincode` lets one sequence take up in memory, by default.
pub const PREALLOCATION_LIMIT: usize = 4194304;

/// How many bytes `wincode` counts for a [`Row`]: what one takes up in memory, which
/// differs between machines, and at least one.
pub open spec fn row_size() -> nat {
    if vstd::layout::size_of::<Row>() > 0 {
        vstd::layout::size_of::<Row>()
    } else {
        1
    }
}

/// No sequence among the rows takes up more memory than `wincode` lets it: not the list
/// itself, and no key or value in it.
pub open spec fn within_limits(rows: Seq<RowView>) -> bool {
    &&& rows.len() * row_size() <= PREALLOCATION_LIMIT
    &&& forall|i: int|
        0 <= i < rows.len() ==> (#[trigger] rows[i]).0.len() <= PREALLOCATION_LIMIT
            && rows[i].1.0.len() <= PREALLOCATION_LIMIT
}

/// A number: eight bytes, the least significant first.
pub open spec fn number_bytes(n: u64) -> Seq<u8> {
    vstd::bytes::spec_u64_to_le_bytes(n)
}

/// A byte string: its length, then its bytes.
pub open spec fn string_bytes(s: Seq<u8>) -> Seq<u8> {
    number_bytes(s.len() as u64) + s
}

/// A deadline: a zero where there is none, else a one and the deadline.
pub open spec fn deadline_bytes(d: Option<u64>) -> Seq<u8> {
    match d {
        None => seq![0u8],
        Some(t) => seq![1u8] + number_bytes(t),
    }
}

/// A row: the key, the value, the deadline.
pub open spec fn row_bytes(row: RowView) -> Seq<u8> {
    string_bytes(row.0) + string_bytes(row.1.0) + deadline_bytes(row.1.1)
}

/// Some rows, one behind the other.
pub open spec fn rows_bytes(rows: Seq<RowView>) -> Seq<u8>
    decreases rows.len(),
{
    if rows.len() == 0 {
        Seq::empty()
    } else {
        row_bytes(rows[0]) + rows_bytes(rows.drop_first())
    }
}

/// A list of rows: how many there are, then the rows.
pub open spec fn encoded_rows(rows: Seq<RowView>) -> Seq<u8> {
    number_bytes(rows.len() as u64) + rows_bytes(rows)
}

/// `bytes` start with `rows`, which are within the limits.
pub open spec fn starts_with_rows(bytes: Seq<u8>, rows: Seq<RowView>) -> bool {
    within_limits(rows) && encoded_rows(rows).is_prefix_of(bytes)
}

/// The rows that `bytes` start with, where they start with any.
pub open spec fn decoded_rows(bytes: Seq<u8>) -> Option<Seq<RowView>> {
    if exists|rows: Seq<RowView>| #[trigger] starts_with_rows(bytes, rows) {
        Some(choose|rows: Seq<RowView>| #[trigger] starts_with_rows(bytes, rows))
    } else {
        None
    }
}

/// `wincode::serialize` on a list of rows. It refuses exactly where a sequence is over the
/// preallocation limit, and else writes the rows as [`encoded_rows`] lays them out.
#[verifier::external_body]
fn serialize(rows: &Vec<Row>) -> (r: Result<Vec<u8>, WriteError>)
    ensures
        r is Ok == within_limits(row_views(rows@)),
        r matches Ok(bytes) ==> bytes@ == encoded_rows(row_views(rows@)),
{
    wincode::serialize(rows)
}

/// `wincode::deserialize` into a list of rows. It reads rows that the bytes start with, laid
/// out as [`encoded_rows`] says, and does not look at what stands behind them. It refuses
/// exactly where the bytes start with no rows within the limits: where they end too early,
/// where a deadline is marked with neither a zero nor a one, where a length is over the
/// preallocation limit.
#[verifier::external_body]
fn deserialize(bytes: &[u8]) -> (r: Result<Vec<Row>, ReadError>)
    ensures
        match r {
            Ok(rows) => starts_with_rows(bytes@, row_views(rows@)),
            Err(_) => forall|rows: Seq<RowView>| !#[trigger] starts_with_rows(bytes@, rows),
        },
{
    wincode::deserialize(bytes)
}

/// Numbers have eight bytes, and different numbers have different ones.
proof fn numbers_differ(a: u64, b: u64)
    ensures
        number_bytes(a).len() == 8,
        number_bytes(a) == number_bytes(b) ==> a == b,
{
    vstd::bytes::lemma_auto_spec_u64_to_from_le_bytes();
}

/// Byte strings are read in one way.
proof fn strings_read_one_way(a: Seq<u8>, x: Seq<u8>, b: Seq<u8>, y: Seq<u8>)
    requires
        a.len() <= u64::MAX,
        b.len() <= u64::MAX,
        string_bytes(a) + x == string_bytes(b) + y,
    ensures
        a == b,
        x == y,
{
    let s = string_bytes(a) + x;
    let t = string_bytes(b) + y;
    numbers_differ(a.len() as u64, b.len() as u64);
    numbers_differ(b.len() as u64, a.len() as u64);
    assert(s.take(8) =~= number_bytes(a.len() as u64));
    assert(t.take(8) =~= number_bytes(b.len() as u64));
    let end: int = 8 + a.len() as int;
    assert(s.subrange(8, end) =~= a);
    assert(t.subrange(8, end) =~= b);
    assert(s.skip(end) =~= x);
    assert(t.skip(end) =~= y);
}

/// Deadlines are read in one way.
proof fn deadlines_read_one_way(a: Option<u64>, x: Seq<u8>, b: Option<u64>, y: Seq<u8>)
    requires
        deadline_bytes(a) + x == deadline_bytes(b) + y,
    ensures
        a == b,
        x == y,
{
    let s = deadline_bytes(a) + x;
    let t = deadline_bytes(b) + y;
    assert(s[0] == deadline_bytes(a)[0]);
    assert(t[0] == deadline_bytes(b)[0]);
    match (a, b) {
        (Some(m), Some(n)) => {
            numbers_differ(m, n);
            numbers_differ(n, m);
            assert(s.subrange(1, 9) =~= number_bytes(m));
            assert(t.subrange(1, 9) =~= number_bytes(n));
            assert(s.skip(9) =~= x);
            assert(t.skip(9) =~= y);
        },
        _ => {
            assert(s.skip(1) =~= x);
            assert(t.skip(1) =~= y);
        },
    }
}

/// Rows are read in one way.
proof fn rows_read_one_way(a: Seq<RowView>, x: Seq<u8>, b: Seq<RowView>, y: Seq<u8>)
    requires
        a.len() == b.len(),
        forall|i: int|
            0 <= i < a.len() ==> (#[trigger] a[i]).0.len() <= u64::MAX && a[i].1.0.len()
                <= u64::MAX,
        forall|i: int|
            0 <= i < b.len() ==> (#[trigger] b[i]).0.len() <= u64::MAX && b[i].1.0.len()
                <= u64::MAX,
        rows_bytes(a) + x == rows_bytes(b) + y,
    ensures
        a == b,
    decreases a.len(),
{
    if a.len() > 0 {
        let (p, q) = (a.drop_first(), b.drop_first());
        let (u, v) = (rows_bytes(p) + x, rows_bytes(q) + y);
        let (c, d) = (deadline_bytes(a[0].1.1) + u, deadline_bytes(b[0].1.1) + v);
        let (e, f) = (string_bytes(a[0].1.0) + c, string_bytes(b[0].1.0) + d);
        assert(rows_bytes(a) + x =~= string_bytes(a[0].0) + e);
        assert(rows_bytes(b) + y =~= string_bytes(b[0].0) + f);
        strings_read_one_way(a[0].0, e, b[0].0, f);
        strings_read_one_way(a[0].1.0, c, b[0].1.0, d);
        deadlines_read_one_way(a[0].1.1, u, b[0].1.1, v);
        assert forall|i: int| 0 <= i < p.len() implies (#[trigger] p[i]).0.len() <= u64::MAX
            && p[i].1.0.len() <= u64::MAX by {
            assert(p[i] == a[i + 1]);
        }
        assert forall|i: int| 0 <= i < q.len() implies (#[trigger] q[i]).0.len() <= u64::MAX
            && q[i].1.0.len() <= u64::MAX by {
            assert(q[i] == b[i + 1]);
        }
        rows_read_one_way(p, x, q, y);
        assert(a =~= seq![a[0]] + p);
        assert(b =~= seq![b[0]] + q);
    } else {
        assert(a =~= b);
    }
}

/// There are no more rows within the limits than the limit has bytes.
proof fn rows_are_few(rows: Seq<RowView>)
    requires
        within_limits(rows),
    ensures
        rows.len() <= PREALLOCATION_LIMIT,
{
    let (n, size) = (rows.len(), row_size());
    assert(n <= n * size) by (nonlinear_arith)
        requires
            size >= 1,
    ;
}

/// Bytes are read in one way: they start with at most one list of rows, whatever stands
/// behind it.
pub proof fn bytes_read_one_way(bytes: Seq<u8>, a: Seq<RowView>, b: Seq<RowView>)
    requires
        starts_with_rows(bytes, a),
        starts_with_rows(bytes, b),
    ensures
        a == b,
{
    rows_are_few(a);
    rows_are_few(b);
    numbers_differ(a.len() as u64, b.len() as u64);
    numbers_differ(b.len() as u64, a.len() as u64);
    assert(bytes.take(8) =~= number_bytes(a.len() as u64));
    assert(bytes.take(8) =~= number_bytes(b.len() as u64));
    let x = bytes.skip(encoded_rows(a).len() as int);
    let y = bytes.skip(encoded_rows(b).len() as int);
    assert(bytes =~= encoded_rows(a) + x);
    assert(bytes =~= encoded_rows(b) + y);
    assert((encoded_rows(a) + x).skip(8) =~= rows_bytes(a) + x);
    assert((encoded_rows(b) + y).skip(8) =~= rows_bytes(b) + y);
    rows_read_one_way(a, x, b, y);
}

/// Failure loading or storing a snapshot.
#[derive(Debug)]
pub enum SnapshotError {
    /// `wincode` couldn't deserialize the bytes: corrupt, or an incompatible format.
    Read(ReadError),
    /// `wincode` couldn't serialize the map.
    Write(WriteError),
}

impl SnapshotError {
    /// `text` is what `wincode` prints for the fault.
    pub open spec fn is_message(self, text: Seq<u8>) -> bool {
        match self {
            SnapshotError::Read(e) => exists|printed: String|
                {
                    &&& #[trigger] vstd::string::to_string_from_display_ensures::<ReadError>(&e, printed)
                    &&& text == bytes::text(printed@)
                },
            SnapshotError::Write(e) => exists|printed: String|
                {
                    &&& #[trigger] vstd::string::to_string_from_display_ensures::<WriteError>(&e, printed)
                    &&& text == bytes::text(printed@)
                },
        }
    }

    /// The text that describes the fault: what `wincode` prints for it.
    pub fn message(&self) -> (r: Vec<u8>)
        ensures
            self.is_message(r@),
    {
        let printed: String = match self {
            SnapshotError::Read(e) => e.to_string(),
            SnapshotError::Write(e) => e.to_string(),
        };
        bytes::to_bytes(printed.as_str())
    }
}

/// The row of one entry.
pub open spec fn row_of(key: Seq<u8>, e: EntryView) -> RowView {
    (
        key,
        (
            e.value,
            match e.expires_at {
                Some(t) => Some(t.0),
                None => None,
            },
        ),
    )
}

/// The entry of one row.
pub open spec fn entry_of(row: RowView) -> EntryView {
    EntryView {
        value: row.1.0,
        expires_at: match row.1.1 {
            Some(t) => Some(Milliseconds(t)),
            None => None,
        },
    }
}

/// The rows of a map, in key order.
pub open spec fn rows_of(data: ByteMap<Entry>) -> Seq<RowView> {
    Seq::new(data.keys().len(), |i: int| row_of(data.keys()[i], data@[data.keys()[i]]))
}

/// The map of some rows. Of two rows with one key the later counts.
pub open spec fn map_of_rows(rows: Seq<RowView>) -> Data
    decreases rows.len(),
{
    if rows.len() == 0 {
        Map::empty()
    } else {
        map_of_rows(rows.drop_last()).insert(rows.last().0, entry_of(rows.last()))
    }
}

/// What a snapshot's bytes hold: nothing where there are none, else what `wincode` reads.
pub open spec fn contents(s: Seq<u8>) -> Option<Data> {
    if s.len() == 0 {
        Some(Map::empty())
    } else {
        match decoded_rows(s) {
            Some(rows) => Some(map_of_rows(rows)),
            None => None,
        }
    }
}

/// Rows with distinct keys make a map that holds each of them and nothing else.
proof fn map_of_distinct_rows(rows: Seq<RowView>)
    requires
        forall|i: int, j: int|
            0 <= i < rows.len() && 0 <= j < rows.len() && (#[trigger] rows[i]).0 == (
            #[trigger] rows[j]).0 ==> i == j,
    ensures
        forall|i: int|
            0 <= i < rows.len() ==> map_of_rows(rows).dom().contains((#[trigger] rows[i]).0)
                && map_of_rows(rows)[rows[i].0] == entry_of(rows[i]),
        forall|k: Seq<u8>| #[trigger]
            map_of_rows(rows).dom().contains(k) ==> exists|i: int|
                0 <= i < rows.len() && (#[trigger] rows[i]).0 == k,
    decreases rows.len(),
{
    if rows.len() > 0 {
        let rest = rows.drop_last();
        assert forall|i: int| 0 <= i < rest.len() implies #[trigger] rest[i] == rows[i] by {}
        map_of_distinct_rows(rest);
        let last = rows.len() - 1;
        assert forall|i: int| 0 <= i < rows.len() implies map_of_rows(rows).dom().contains(
            (#[trigger] rows[i]).0,
        ) && map_of_rows(rows)[rows[i].0] == entry_of(rows[i]) by {
            if i < last {
                assert(rest[i] == rows[i]);
                assert(rows[i].0 != rows[last].0);
            }
        }
        assert forall|k: Seq<u8>| #[trigger] map_of_rows(rows).dom().contains(k) implies exists|
            i: int,
        | 0 <= i < rows.len() && (#[trigger] rows[i]).0 == k by {
            if k == rows[last].0 {
            } else {
                let i = choose|i: int| 0 <= i < rest.len() && (#[trigger] rest[i]).0 == k;
                assert(rows[i].0 == k);
            }
        }
    }
}

/// The rows of a map make up the map again.
proof fn rows_make_the_map(data: ByteMap<Entry>)
    requires
        data.keys().no_duplicates(),
        forall|k: Seq<u8>| #[trigger] data@.dom().contains(k) <==> data.keys().contains(k),
    ensures
        map_of_rows(rows_of(data)) == data@,
{
    let rows = rows_of(data);
    let keys = data.keys();
    assert forall|i: int, j: int|
        0 <= i < rows.len() && 0 <= j < rows.len() && (#[trigger] rows[i]).0 == (
        #[trigger] rows[j]).0 implies i == j by {
        assert(rows[i].0 == keys[i] && rows[j].0 == keys[j]);
    }
    map_of_distinct_rows(rows);
    let m = map_of_rows(rows);
    assert forall|k: Seq<u8>| m.dom().contains(k) <==> data@.dom().contains(k) by {
        if m.dom().contains(k) {
            let i = choose|i: int| 0 <= i < rows.len() && (#[trigger] rows[i]).0 == k;
            assert(keys[i] == k);
        }
        if data@.dom().contains(k) {
            let i = choose|i: int| 0 <= i < keys.len() && keys[i] == k;
            assert(rows[i].0 == k);
        }
    }
    assert forall|k: Seq<u8>| m.dom().contains(k) implies #[trigger] m[k] == data@[k] by {
        let i = choose|i: int| 0 <= i < rows.len() && (#[trigger] rows[i]).0 == k;
        assert(keys[i] == k);
        assert(entry_of(rows[i]) == data@[k]);
    }
    assert(m =~= data@);
}

/// The snapshot.
#[derive(Debug)]
pub struct Snapshot {
    bytes: Vec<u8>,
}

impl View for Snapshot {
    type V = Seq<u8>;

    closed spec fn view(&self) -> Seq<u8> {
        self.bytes@
    }
}

impl From<Vec<u8>> for Snapshot {
    /// The snapshot that stands in `bytes`.
    fn from(bytes: Vec<u8>) -> (r: Self)
        ensures
            r@ == bytes@,
    {
        Snapshot { bytes }
    }
}

impl vstd::std_specs::convert::FromSpecImpl<Vec<u8>> for Snapshot {
    open spec fn obeys_from_spec() -> bool {
        false
    }

    open spec fn from_spec(bytes: Vec<u8>) -> Snapshot {
        arbitrary()
    }
}

impl Default for Snapshot {
    fn default() -> (r: Self)
        ensures
            r@ == Seq::<u8>::empty(),
    {
        let r = Snapshot { bytes: Vec::new() };
        assert(r@ =~= Seq::<u8>::empty());
        r
    }
}

impl Snapshot {
    /// The snapshot's bytes.
    pub fn as_bytes(&self) -> (r: &[u8])
        ensures
            r@ == self@,
    {
        self.bytes.as_slice()
    }

    /// The rows of `data`, in key order. They make up `data` again.
    pub fn dump(data: &ByteMap<Entry>) -> (r: Vec<Row>)
        ensures
            row_views(r@) == rows_of(*data),
            map_of_rows(rows_of(*data)) == data@,
    {
        let n: usize = data.len();
        let mut out: Vec<Row> = Vec::new();
        let mut i: usize = 0;
        while i < n
            invariant
                i <= n == data.keys().len(),
                row_views(out@) == rows_of(*data).take(i as int),
            decreases n - i,
        {
            let (key, e) = data.entry_at(i);
            let deadline: Option<u64> = match e.expires_at {
                Some(t) => Some(t.get()),
                None => None,
            };
            let row: Row = (
                bytes::copy(key.as_slice()),
                (bytes::copy(e.value.as_slice()), deadline),
            );
            let ghost before = out@;
            out.push(row);
            proof {
                assert(row_views(out@) =~= row_views(before).push((row.0@, (row.1.0@, row.1.1))));
                assert(rows_of(*data).take(i + 1) =~= rows_of(*data).take(i as int).push(
                    rows_of(*data)[i as int],
                ));
            }
            i = i + 1;
        }
        proof {
            assert(rows_of(*data).take(i as int) =~= rows_of(*data));
            rows_make_the_map(*data);
        }
        out
    }

    /// The map of `rows`. Of two rows with one key the later counts.
    pub fn restore(rows: Vec<Row>) -> (r: ByteMap<Entry>)
        ensures
            r@ == map_of_rows(row_views(rows@)),
    {
        let ghost views = row_views(rows@);
        let mut map: ByteMap<Entry> = ByteMap::new();
        let mut i: usize = 0;
        assert(views.take(0) =~= Seq::<RowView>::empty());
        while i < rows.len()
            invariant
                i <= rows@.len(),
                views == row_views(rows@),
                map@ == map_of_rows(views.take(i as int)),
            decreases rows@.len() - i,
        {
            let deadline: Option<Milliseconds> = match rows[i].1.1 {
                Some(t) => Some(Milliseconds::new(t)),
                None => None,
            };
            let entry = Entry::new(bytes::copy(rows[i].1.0.as_slice()), deadline);
            proof {
                assert(views.take(i + 1).drop_last() =~= views.take(i as int));
                assert(views.take(i + 1).last() == views[i as int]);
                assert(entry@ == entry_of(views[i as int]));
            }
            map.insert(bytes::copy(rows[i].0.as_slice()), entry);
            i = i + 1;
        }
        assert(views.take(i as int) =~= views);
        map
    }

    /// Load the snapshot into a map. No bytes (no snapshot taken yet) yield an empty map
    /// rather than an error.
    pub fn load(&self) -> (r: Result<ByteMap<Entry>, SnapshotError>)
        ensures
            match contents(self@) {
                Some(data) => r is Ok && r->Ok_0@ == data,
                None => r is Err && r->Err_0 is Read,
            },
    {
        if self.bytes.len() == 0 {
            return Ok(ByteMap::new());
        }
        match deserialize(self.bytes.as_slice()) {
            Ok(rows) => {
                proof {
                    bytes_read_one_way(self@, row_views(rows@), decoded_rows(self@).unwrap());
                }
                Ok(Snapshot::restore(rows))
            },
            Err(e) => Err(SnapshotError::Read(e)),
        }
    }

    /// Make `data` the new snapshot. The old one stays where `wincode` refuses to write:
    /// where `data` is over its limits.
    pub fn store(&mut self, data: &ByteMap<Entry>) -> (r: Result<(), SnapshotError>)
        ensures
            if within_limits(rows_of(*data)) {
                &&& r is Ok
                &&& final(self)@ == encoded_rows(rows_of(*data))
                &&& contents(final(self)@) == Some(data@)
            } else {
                &&& r matches Err(SnapshotError::Write(_))
                &&& final(self)@ == old(self)@
            },
    {
        let rows = Snapshot::dump(data);
        match serialize(&rows) {
            Ok(bytes) => {
                proof {
                    let views = row_views(rows@);
                    numbers_differ(views.len() as u64, 0);
                    assert(starts_with_rows(bytes@, views));
                    bytes_read_one_way(bytes@, views, decoded_rows(bytes@).unwrap());
                }
                self.bytes = bytes;
                Ok(())
            },
            Err(e) => Err(SnapshotError::Write(e)),
        }
    }
}

/// A map is made of rows one by one: each puts its value and its deadline under its key, in
/// place of what an earlier row put there, and touches nothing else.
pub proof fn later_rows_count(rows: Seq<RowView>, key: Seq<u8>, value: Seq<u8>, t: Option<u64>)
    ensures
        map_of_rows(Seq::<RowView>::empty()) == Map::<Seq<u8>, EntryView>::empty(),
        ({
            let before = map_of_rows(rows);
            let after = map_of_rows(rows.push((key, (value, t))));
            &&& after.dom().contains(key)
            &&& after[key].value == value
            &&& t is None ==> after[key].expires_at is None
            &&& t matches Some(n) ==> after[key].expires_at == Some(Milliseconds(n))
            &&& after.remove(key) == before.remove(key)
        }),
{
    let row: RowView = (key, (value, t));
    assert(rows.push(row).drop_last() =~= rows);
    assert(map_of_rows(rows).insert(key, entry_of(row)).remove(key) =~= map_of_rows(rows).remove(
        key,
    ));
}

/// An entry is dumped as its key, its value and its deadline, as they are.
pub proof fn rows_hold_what_entries_hold(key: Seq<u8>, e: EntryView)
    ensures
        row_of(key, e).0 == key,
        row_of(key, e).1.0 == e.value,
        e.expires_at is None ==> row_of(key, e).1.1 is None,
        e.expires_at matches Some(t) ==> row_of(key, e).1.1 == Some(t.0),
        entry_of(row_of(key, e)) == e,
{
}

/// A snapshot holds what was stored in it: the bytes of rows hold the map of those rows,
/// whatever stands behind them, and no bytes hold nothing.
pub proof fn stored_rows_are_found(rows: Seq<RowView>, tail: Seq<u8>)
    requires
        within_limits(rows),
    ensures
        contents(encoded_rows(rows) + tail) == Some(map_of_rows(rows)),
        contents(Seq::<u8>::empty()) == Some(Map::<Seq<u8>, EntryView>::empty()),
{
    let s = encoded_rows(rows) + tail;
    numbers_differ(rows.len() as u64, 0);
    assert(encoded_rows(rows).is_prefix_of(s));
    assert(starts_with_rows(s, rows));
    bytes_read_one_way(s, rows, decoded_rows(s).unwrap());
}

/// Bytes that start with no rows do not load.
pub proof fn other_bytes_do_not_load(s: Seq<u8>)
    requires
        s.len() > 0,
        forall|rows: Seq<RowView>| !#[trigger] starts_with_rows(s, rows),
    ensures
        contents(s) is None,
{
}

} // verus!
