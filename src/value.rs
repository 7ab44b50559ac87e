use vstd::prelude::*;

verus! {

/// A plain column value.
#[allow(non_camel_case_types)]
#[derive(Clone, Debug, PartialEq)]
pub enum Value {
    NULL,
    Bytes(Vec<u8>),
    Int(i64),
    UInt(u64),
    /// A single-precision float, as its IEEE 754 bit pattern.
    Float(u32),
    /// A double-precision float, as its IEEE 754 bit pattern.
    Double(u64),
    /// Year, month, day, hour, minute, second, microsecond.
    Date(u16, u8, u8, u8, u8, u8, u32),
    /// Negative, days, hours, minutes, seconds, microseconds.
    Time(bool, u32, u8, u8, u8, u32),
}

/// What a `Value` holds, with its bytes as a sequence.
pub enum ValueModel {
    Null,
    Bytes(Seq<u8>),
    Int(int),
    UInt(nat),
    Float(u32),
    Double(u64),
    Date(u16, u8, u8, u8, u8, u8, u32),
    Time(bool, u32, u8, u8, u8, u32),
}

impl View for Value {
    type V = ValueModel;

    open spec fn view(&self) -> ValueModel {
        match self {
            Value::NULL => ValueModel::Null,
            Value::Bytes(b) => ValueModel::Bytes(b@),
            Value::Int(i) => ValueModel::Int(*i as int),
            Value::UInt(u) => ValueModel::UInt(*u as nat),
            Value::Float(f) => ValueModel::Float(*f),
            Value::Double(d) => ValueModel::Double(*d),
            Value::Date(y, mo, d, h, mi, s, us) => ValueModel::Date(*y, *mo, *d, *h, *mi, *s, *us),
            Value::Time(n, d, h, mi, s, us) => ValueModel::Time(*n, *d, *h, *mi, *s, *us),
        }
    }
}

/// Bytes that either borrow from a row image or own a copy of their own. Two are equal when
/// they hold the same bytes, whether borrowed or owned.
#[derive(Clone, Debug)]
pub enum RawBytes<'a> {
    Borrowed(&'a [u8]),
    Owned(Vec<u8>),
}

impl<'a> View for RawBytes<'a> {
    type V = Seq<u8>;

    open spec fn view(&self) -> Seq<u8> {
        match self {
            RawBytes::Borrowed(s) => s@,
            RawBytes::Owned(v) => v@,
        }
    }
}

impl<'a> RawBytes<'a> {
    pub open spec fn is_owned(&self) -> bool {
        self is Owned
    }

    /// The bytes as a slice.
    pub fn as_slice(&self) -> (r: &[u8])
        ensures
            r@ == self@,
    {
        match self {
            RawBytes::Borrowed(s) => s,
            RawBytes::Owned(v) => v.as_slice(),
        }
    }

    /// A copy that owns its bytes.
    pub fn to_owned_bytes(&self) -> (r: RawBytes<'static>)
        ensures
            r@ == self@,
            r.is_owned(),
    {
        RawBytes::Owned(vstd::slice::slice_to_vec(self.as_slice()))
    }
}

impl<'a> PartialEq for RawBytes<'a> {
    fn eq(&self, o: &RawBytes<'a>) -> (r: bool) {
        let a = self.as_slice();
        let b = o.as_slice();
        if a.len() != b.len() {
            return false;
        }
        let mut i: usize = 0;
        while i < a.len()
            invariant
                a@ == self@,
                b@ == o@,
                a@.len() == b@.len(),
                i <= a@.len(),
                a@.take(i as int) == b@.take(i as int),
            decreases a@.len() - i,
        {
            if a[i] != b[i] {
                assert(a@[i as int] != b@[i as int]);
                return false;
            }
            assert(a@.take(i + 1) =~= a@.take(i as int).push(a@[i as int]));
            assert(b@.take(i + 1) =~= b@.take(i as int).push(b@[i as int]));
            i = i + 1;
        }
        assert(a@ =~= a@.take(i as int));
        assert(b@ =~= b@.take(i as int));
        true
    }
}

impl<'a> vstd::std_specs::cmp::PartialEqSpecImpl for RawBytes<'a> {
    open spec fn obeys_eq_spec() -> bool {
        true
    }

    open spec fn eq_spec(&self, o: &RawBytes<'a>) -> bool {
        self@ == o@
    }
}

/// A JSON document in MySQL's binary JSON encoding.
#[derive(Clone, Debug, PartialEq)]
pub struct JsonbValue<'a> {
    pub data: RawBytes<'a>,
}

impl<'a> View for JsonbValue<'a> {
    type V = Seq<u8>;

    open spec fn view(&self) -> Seq<u8> {
        self.data@
    }
}

impl<'a> JsonbValue<'a> {
    pub open spec fn is_owned(&self) -> bool {
        self.data.is_owned()
    }

    /// A copy that owns its bytes.
    pub fn into_owned(self) -> (r: JsonbValue<'static>)
        ensures
            r@ == self@,
            r.is_owned(),
    {
        JsonbValue { data: self.data.to_owned_bytes() }
    }
}

/// The operation of one partial JSON update.
#[allow(non_camel_case_types)]
#[derive(Clone, Copy, Debug, PartialEq, Eq, Structural)]
pub enum JsonDiffOperation {
    REPLACE,
    INSERT,
    REMOVE,
}

/// One partial JSON update: an operation at a path, with a new value unless it removes.
#[derive(Clone, Debug, PartialEq)]
pub struct JsonDiff<'a> {
    pub path: RawBytes<'a>,
    pub operation: JsonDiffOperation,
    pub value: Option<JsonbValue<'a>>,
}

/// What a `JsonDiff` holds.
pub struct JsonDiffModel {
    pub path: Seq<u8>,
    pub operation: JsonDiffOperation,
    pub value: Option<Seq<u8>>,
}

impl<'a> View for JsonDiff<'a> {
    type V = JsonDiffModel;

    open spec fn view(&self) -> JsonDiffModel {
        JsonDiffModel {
            path: self.path@,
            operation: self.operation,
            value: match self.value {
                Some(v) => Some(v@),
                None => None,
            },
        }
    }
}

impl<'a> JsonDiff<'a> {
    pub open spec fn is_owned(&self) -> bool {
        &&& self.path.is_owned()
        &&& (self.value is Some ==> self.value.unwrap().is_owned())
    }

    /// A copy that owns its bytes.
    pub fn to_owned_diff(&self) -> (r: JsonDiff<'static>)
        ensures
            r@ == self@,
            r.is_owned(),
    {
        let value = match &self.value {
            Some(v) => Some(JsonbValue { data: v.data.to_owned_bytes() }),
            None => None,
        };
        JsonDiff { path: self.path.to_owned_bytes(), operation: self.operation, value }
    }
}

/// A decoded column of a row image.
#[derive(Clone, Debug, PartialEq)]
pub enum BinlogValue<'a> {
    /// A plain value.
    Value(Value),
    /// A whole JSON document.
    Jsonb(JsonbValue<'a>),
    /// The updates of a partial JSON modification.
    JsonDiff(Vec<JsonDiff<'a>>),
}

/// What a `BinlogValue` holds.
pub enum BinlogModel {
    Value(ValueModel),
    Jsonb(Seq<u8>),
    JsonDiff(Seq<JsonDiffModel>),
}

impl<'a> View for BinlogValue<'a> {
    type V = BinlogModel;

    open spec fn view(&self) -> BinlogModel {
        match self {
            BinlogValue::Value(v) => BinlogModel::Value(v@),
            BinlogValue::Jsonb(j) => BinlogModel::Jsonb(j@),
            BinlogValue::JsonDiff(d) => BinlogModel::JsonDiff(d@.map_values(|x: JsonDiff<'a>| x@)),
        }
    }
}

impl<'a> BinlogValue<'a> {
    /// No byte of the value borrows from a row image.
    pub open spec fn is_owned(&self) -> bool {
        match self {
            BinlogValue::Value(_) => true,
            BinlogValue::Jsonb(j) => j.is_owned(),
            BinlogValue::JsonDiff(d) => forall|i: int| 0 <= i < d@.len() ==> #[trigger] d@[i].is_owned(),
        }
    }

    /// Returns a `'static` version of `self`: the same content, with every borrowed byte range
    /// copied, so that it outlives the buffer it was decoded from.
    pub fn into_owned(self) -> (r: BinlogValue<'static>)
        ensures
            r@ == self@,
            r.is_owned(),
    {
        match self {
            BinlogValue::Value(x) => BinlogValue::Value(x),
            BinlogValue::Jsonb(x) => BinlogValue::Jsonb(x.into_owned()),
            BinlogValue::JsonDiff(x) => {
                let mut out: Vec<JsonDiff<'static>> = Vec::new();
                let mut i: usize = 0;
                while i < x.len()
                    invariant
                        i <= x@.len(),
                        out@.len() == i,
                        forall|j: int| 0 <= j < i ==> #[trigger] out@[j]@ == x@[j]@ && out@[j].is_owned(),
                    decreases x@.len() - i,
                {
                    out.push(x[i].to_owned_diff());
                    i = i + 1;
                }
                let r = BinlogValue::JsonDiff(out);
                assert forall|j: int| 0 <= j < out@.len() implies #[trigger] out@[j].is_owned() by {
                    assert(out@[j]@ == x@[j]@);
                }
                assert(out@.map_values(|d: JsonDiff<'static>| d@) =~= x@.map_values(|d: JsonDiff<'a>| d@));
                r
            }
        }
    }
}

} // verus!
