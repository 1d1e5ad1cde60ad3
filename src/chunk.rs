use vstd::prelude::*;

use vstd::utf8::encode_utf8;

use crate::vnode::Bitmap;

verus! {

/// A single value of a row.
#[derive(Debug)]
pub enum Datum {
    Null,
    Int16(i16),
    Int32(i32),
    Int64(i64),
    Bool(bool),
    Utf8(String),
}

/// The mathematical value of a `Datum`.
pub enum DatumValue {
    Null,
    Int16(i16),
    Int32(i32),
    Int64(i64),
    Bool(bool),
    Utf8(Seq<char>),
}

impl View for Datum {
    type V = DatumValue;

    open spec fn view(&self) -> DatumValue {
        match self {
            Datum::Null => DatumValue::Null,
            Datum::Int16(x) => DatumValue::Int16(*x),
            Datum::Int32(x) => DatumValue::Int32(*x),
            Datum::Int64(x) => DatumValue::Int64(*x),
            Datum::Bool(b) => DatumValue::Bool(*b),
            Datum::Utf8(s) => DatumValue::Utf8(s@),
        }
    }
}

impl Datum {
    /// Copies the value.
    pub fn duplicate(&self) -> (r: Datum)
        ensures
            r@ == self@,
    {
        match self {
            Datum::Null => Datum::Null,
            Datum::Int16(x) => Datum::Int16(*x),
            Datum::Int32(x) => Datum::Int32(*x),
            Datum::Int64(x) => Datum::Int64(*x),
            Datum::Bool(b) => Datum::Bool(*b),
            Datum::Utf8(s) => Datum::Utf8(s.clone()),
        }
    }
}

/// The values of a sequence of datums.
pub open spec fn values_of(ds: Seq<Datum>) -> Seq<DatumValue> {
    ds.map_values(|d: Datum| d@)
}

/// Copies a sequence of datums.
pub fn duplicate_datums(ds: &Vec<Datum>) -> (r: Vec<Datum>)
    ensures
        values_of(r@) == values_of(ds@),
{
    let mut r: Vec<Datum> = Vec::new();
    let mut i: usize = 0;
    while i < ds.len()
        invariant
            i <= ds.len(),
            r.len() == i,
            forall|k: int| 0 <= k < i ==> (#[trigger] r@[k])@ == ds@[k]@,
        decreases ds.len() - i,
    {
        r.push(ds[i].duplicate());
        i = i + 1;
    }
    assert(values_of(r@) =~= values_of(ds@));
    r
}

/// The `n` low-order bytes of `x`, least significant first.
pub open spec fn le_bytes(x: u64, n: nat) -> Seq<u8>
    decreases n,
{
    if n == 0 {
        Seq::empty()
    } else {
        seq![(x % 256) as u8] + le_bytes(x / 256, (n - 1) as nat)
    }
}

/// The byte encoding of a value inside a hash key: a tag byte, then the
/// payload (integers sign-extended to eight little-endian bytes; strings as
/// their eight-byte UTF-8 length followed by their UTF-8 bytes).
pub open spec fn encode_datum(d: DatumValue) -> Seq<u8> {
    match d {
        DatumValue::Null => seq![0u8],
        DatumValue::Int16(x) => seq![1u8] + le_bytes(x as u64, 8),
        DatumValue::Int32(x) => seq![2u8] + le_bytes(x as u64, 8),
        DatumValue::Int64(x) => seq![3u8] + le_bytes(x as u64, 8),
        DatumValue::Bool(b) => seq![4u8, if b { 1u8 } else { 0u8 }],
        DatumValue::Utf8(s) => seq![5u8] + le_bytes(encode_utf8(s).len() as u64, 8) + encode_utf8(s),
    }
}

/// The encoding of the key columns `key` of `row`, one value after another.
pub open spec fn encode_key(row: Seq<DatumValue>, key: Seq<usize>) -> Seq<u8>
    decreases key.len(),
{
    if key.len() == 0 {
        Seq::empty()
    } else {
        encode_key(row, key.drop_last()) + encode_datum(row[key.last() as int])
    }
}

/// Appends the `n` low-order bytes of `x` to `out`.
fn push_le_bytes(out: &mut Vec<u8>, x: u64, n: usize)
    ensures
        final(out)@ == old(out)@ + le_bytes(x, n as nat),
{
    let ghost start = out@;
    let mut y: u64 = x;
    let mut k: usize = 0;
    while k < n
        invariant
            k <= n,
            out@ + le_bytes(y, (n - k) as nat) == start + le_bytes(x, n as nat),
        decreases n - k,
    {
        let ghost before = out@;
        let b = (y % 256) as u8;
        assert(le_bytes(y, (n - k) as nat) == seq![b] + le_bytes(y / 256, (n - k - 1) as nat));
        out.push(b);
        assert(out@ == before + seq![b]);
        assert(out@ + le_bytes(y / 256, (n - k - 1) as nat) =~= before + (seq![b] + le_bytes(
            y / 256,
            (n - k - 1) as nat,
        )));
        y = y / 256;
        k = k + 1;
    }
    assert(out@ =~= start + le_bytes(x, n as nat));
}

/// Appends the key encoding of `d` to `out`.
pub fn push_datum_key(out: &mut Vec<u8>, d: &Datum)
    ensures
        final(out)@ == old(out)@ + encode_datum(d@),
{
    let ghost start = out@;
    match d {
        Datum::Null => {
            out.push(0u8);
            assert(out@ =~= start + encode_datum(d@));
        },
        Datum::Int16(x) => {
            out.push(1u8);
            push_le_bytes(out, *x as u64, 8);
            assert(out@ =~= start + encode_datum(d@));
        },
        Datum::Int32(x) => {
            out.push(2u8);
            push_le_bytes(out, *x as u64, 8);
            assert(out@ =~= start + encode_datum(d@));
        },
        Datum::Int64(x) => {
            out.push(3u8);
            push_le_bytes(out, *x as u64, 8);
            assert(out@ =~= start + encode_datum(d@));
        },
        Datum::Bool(b) => {
            out.push(4u8);
            out.push(if *b { 1u8 } else { 0u8 });
            assert(out@ =~= start + encode_datum(d@));
        },
        Datum::Utf8(s) => {
            let bytes = s.as_str().as_bytes();
            out.push(5u8);
            push_le_bytes(out, bytes.len() as u64, 8);
            let ghost mid = out@;
            let mut i: usize = 0;
            while i < bytes.len()
                invariant
                    i <= bytes.len(),
                    out@ == mid + bytes@.subrange(0, i as int),
                decreases bytes.len() - i,
            {
                out.push(bytes[i]);
                assert(bytes@.subrange(0, i + 1) =~= bytes@.subrange(0, i as int) + seq![
                    bytes@[i as int],
                ]);
                assert(out@ =~= mid + bytes@.subrange(0, i + 1));
                i = i + 1;
            }
            assert(bytes@.subrange(0, bytes.len() as int) =~= bytes@);
            assert(out@ =~= start + encode_datum(d@));
        },
    }
}

/// A columnar batch of rows with an optional visibility bitmap; rows whose
/// flag is unset are not part of the batch.
#[derive(Debug)]
pub struct DataChunk {
    pub columns: Vec<Vec<Datum>>,
    pub capacity: usize,
    pub visibility: Option<Bitmap>,
}

impl DataChunk {
    /// Every column holds `capacity` values, and so does the visibility.
    pub open spec fn wf(&self) -> bool {
        &&& forall|k: int|
            0 <= k < self.columns.len() ==> (#[trigger] self.columns@[k]).len() == self.capacity
        &&& self.visibility matches Some(vis) ==> vis@.len() == self.capacity
    }

    /// The values of the columns.
    pub open spec fn column_values(&self) -> Seq<Seq<DatumValue>> {
        self.columns@.map_values(|c: Vec<Datum>| values_of(c@))
    }

    /// The `i`-th row.
    pub open spec fn row(&self, i: int) -> Seq<DatumValue> {
        Seq::new(self.columns.len() as nat, |k: int| self.columns@[k]@[i]@)
    }

    /// Whether row `i` belongs to the batch.
    pub open spec fn visible(&self, i: int) -> bool {
        match self.visibility {
            Some(vis) => vis@[i],
            None => true,
        }
    }

    /// The number of visible rows among the first `k`.
    pub open spec fn visible_upto(&self, k: int) -> nat
        decreases k,
    {
        if k <= 0 {
            0
        } else {
            self.visible_upto(k - 1) + if self.visible(k - 1) { 1nat } else { 0nat }
        }
    }

    /// Whether row `i` is visible.
    pub fn is_visible(&self, i: usize) -> (r: bool)
        requires
            self.wf(),
            i < self.capacity,
        ensures
            r == self.visible(i as int),
    {
        match &self.visibility {
            Some(vis) => vis.bits[i],
            None => true,
        }
    }

    /// Number of visible rows.
    pub fn cardinality(&self) -> (r: usize)
        requires
            self.wf(),
        ensures
            r == self.visible_upto(self.capacity as int),
    {
        let mut n: usize = 0;
        let mut i: usize = 0;
        while i < self.capacity
            invariant
                self.wf(),
                i <= self.capacity,
                n == self.visible_upto(i as int),
                n <= i,
            decreases self.capacity - i,
        {
            if self.is_visible(i) {
                n = n + 1;
            }
            i = i + 1;
        }
        n
    }

    /// The same rows with the given visibility.
    pub fn with_visibility(&self, vis: Bitmap) -> (r: DataChunk)
        requires
            self.wf(),
            vis@.len() == self.capacity,
        ensures
            r.wf(),
            r.column_values() == self.column_values(),
            r.capacity == self.capacity,
            r.visibility == Some(vis),
    {
        let mut columns: Vec<Vec<Datum>> = Vec::new();
        let mut k: usize = 0;
        while k < self.columns.len()
            invariant
                self.wf(),
                k <= self.columns.len(),
                columns.len() == k,
                forall|j: int|
                    0 <= j < k ==> values_of((#[trigger] columns@[j])@) == values_of(
                        self.columns@[j]@,
                    ),
            decreases self.columns.len() - k,
        {
            columns.push(duplicate_datums(&self.columns[k]));
            k = k + 1;
        }
        let r = DataChunk { columns, capacity: self.capacity, visibility: Some(vis) };
        assert(r.column_values() =~= self.column_values());
        assert forall|j: int| 0 <= j < r.columns.len() implies (
        #[trigger] r.columns@[j]).len() == r.capacity by {
            assert(values_of(r.columns@[j]@).len() == values_of(self.columns@[j]@).len());
        }
        r
    }

    /// The key encoding of row `i` over the columns `key`.
    pub fn row_key(&self, key: &Vec<usize>, i: usize) -> (r: Vec<u8>)
        requires
            self.wf(),
            i < self.capacity,
            forall|j: int| 0 <= j < key.len() ==> #[trigger] key@[j] < self.columns.len(),
        ensures
            r@ == encode_key(self.row(i as int), key@),
    {
        let mut out: Vec<u8> = Vec::new();
        let mut j: usize = 0;
        while j < key.len()
            invariant
                self.wf(),
                i < self.capacity,
                forall|t: int| 0 <= t < key.len() ==> #[trigger] key@[t] < self.columns.len(),
                j <= key.len(),
                out@ == encode_key(self.row(i as int), key@.subrange(0, j as int)),
            decreases key.len() - j,
        {
            let c = key[j];
            push_datum_key(&mut out, &self.columns[c][i]);
            assert(key@.subrange(0, j + 1).drop_last() =~= key@.subrange(0, j as int));
            j = j + 1;
        }
        assert(key@.subrange(0, key.len() as int) =~= key@);
        out
    }
}

/// The key encoding of `row` over the columns `key`.
pub fn row_key_of(row: &Vec<Datum>, key: &Vec<usize>) -> (r: Vec<u8>)
    requires
        forall|j: int| 0 <= j < key.len() ==> #[trigger] key@[j] < row.len(),
    ensures
        r@ == encode_key(values_of(row@), key@),
{
    let mut out: Vec<u8> = Vec::new();
    let mut j: usize = 0;
    while j < key.len()
        invariant
            forall|t: int| 0 <= t < key.len() ==> #[trigger] key@[t] < row.len(),
            j <= key.len(),
            out@ == encode_key(values_of(row@), key@.subrange(0, j as int)),
        decreases key.len() - j,
    {
        push_datum_key(&mut out, &row[key[j]]);
        assert(key@.subrange(0, j + 1).drop_last() =~= key@.subrange(0, j as int));
        j = j + 1;
    }
    assert(key@.subrange(0, key.len() as int) =~= key@);
    out
}

} // verus!
