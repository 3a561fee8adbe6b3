use vstd::prelude::*;
use vstd::string::StringExecFns;

verus! {

/// A stored payload: exactly one of the supported kinds, or nothing at all.
#[derive(Debug, Clone, PartialEq, Eq)]
pub enum Value {
    Empty,
    String(String),
    Binary(Vec<u8>),
    Integer(i64),
    /// A floating-point number, held as its IEEE-754 bit pattern.
    Float(u64),
    Bool(bool),
}

/// The mathematical model of a `Value`.
pub ghost enum ValueModel {
    Empty,
    String(Seq<char>),
    Binary(Seq<u8>),
    Integer(i64),
    Float(u64),
    Bool(bool),
}

impl View for Value {
    type V = ValueModel;

    open spec fn view(&self) -> ValueModel {
        match self {
            Value::Empty => ValueModel::Empty,
            Value::String(s) => ValueModel::String(s@),
            Value::Binary(b) => ValueModel::Binary(b@),
            Value::Integer(i) => ValueModel::Integer(*i),
            Value::Float(f) => ValueModel::Float(*f),
            Value::Bool(b) => ValueModel::Bool(*b),
        }
    }
}

/// A key together with its value.
#[derive(Debug, Clone, PartialEq, Eq)]
pub struct Kvpair {
    pub key: String,
    pub value: Value,
}

impl View for Kvpair {
    type V = (Seq<char>, ValueModel);

    open spec fn view(&self) -> (Seq<char>, ValueModel) {
        (self.key@, self.value@)
    }
}

pub open spec fn values_model(vs: Seq<Value>) -> Seq<ValueModel> {
    vs.map_values(|v: Value| v@)
}

pub open spec fn pairs_model(ps: Seq<Kvpair>) -> Seq<(Seq<char>, ValueModel)> {
    ps.map_values(|p: Kvpair| p@)
}

fn copy_bytes(b: &Vec<u8>) -> (r: Vec<u8>)
    ensures
        r@ == b@,
{
    let mut r: Vec<u8> = Vec::new();
    let mut i: usize = 0;
    while i < b.len()
        invariant
            i <= b@.len(),
            r@ == b@.subrange(0, i as int),
        decreases b@.len() - i,
    {
        r.push(b[i]);
        i = i + 1;
    }
    assert(r@ =~= b@);
    r
}

fn same_bytes(a: &Vec<u8>, b: &Vec<u8>) -> (r: bool)
    ensures
        r == (a@ == b@),
{
    if a.len() != b.len() {
        return false;
    }
    let mut i: usize = 0;
    while i < a.len()
        invariant
            a@.len() == b@.len(),
            i <= a@.len(),
            a@.subrange(0, i as int) =~= b@.subrange(0, i as int),
        decreases a@.len() - i,
    {
        if a[i] != b[i] {
            assert(a@[i as int] != b@[i as int]);
            return false;
        }
        assert(a@.subrange(0, i + 1) =~= a@.subrange(0, i as int).push(a@[i as int]));
        assert(b@.subrange(0, i + 1) =~= b@.subrange(0, i as int).push(b@[i as int]));
        i = i + 1;
    }
    assert(a@ =~= a@.subrange(0, a@.len() as int));
    assert(b@ =~= b@.subrange(0, b@.len() as int));
    true
}

impl Value {
    /// A copy of this value, equal to it in the model.
    pub fn duplicate(&self) -> (r: Value)
        ensures
            r@ == self@,
    {
        match self {
            Value::Empty => Value::Empty,
            Value::String(s) => Value::String(s.clone()),
            Value::Binary(b) => Value::Binary(copy_bytes(b)),
            Value::Integer(i) => Value::Integer(*i),
            Value::Float(f) => Value::Float(*f),
            Value::Bool(b) => Value::Bool(*b),
        }
    }

    /// Whether two values are equal in the model.
    pub fn same(&self, other: &Value) -> (r: bool)
        ensures
            r == (self@ == other@),
    {
        match self {
            Value::Empty => match other {
                Value::Empty => true,
                _ => false,
            },
            Value::String(a) => match other {
                Value::String(b) => a.eq(b),
                _ => false,
            },
            Value::Binary(a) => match other {
                Value::Binary(b) => same_bytes(a, b),
                _ => false,
            },
            Value::Integer(a) => match other {
                Value::Integer(b) => *a == *b,
                _ => false,
            },
            Value::Float(a) => match other {
                Value::Float(b) => *a == *b,
                _ => false,
            },
            Value::Bool(a) => match other {
                Value::Bool(b) => *a == *b,
                _ => false,
            },
        }
    }

    /// A string value holding `s`.
    pub fn from_str(s: &str) -> (r: Value)
        ensures
            r@ == ValueModel::String(s@),
    {
        Value::String(String::from_str(s))
    }
}

impl Kvpair {
    pub fn new(key: &str, value: Value) -> (r: Kvpair)
        ensures
            r.key@ == key@,
            r.value == value,
    {
        Kvpair { key: String::from_str(key), value }
    }

    /// A copy of this pair, equal to it in the model.
    pub fn duplicate(&self) -> (r: Kvpair)
        ensures
            r@ == self@,
    {
        Kvpair { key: self.key.clone(), value: self.value.duplicate() }
    }

    /// Whether two pairs are equal in the model.
    pub fn same(&self, other: &Kvpair) -> (r: bool)
        ensures
            r == (self@ == other@),
    {
        self.key.eq(&other.key) && self.value.same(&other.value)
    }
}

/// Read one key of a table.
#[derive(Debug, Clone, PartialEq, Eq)]
pub struct Hget {
    pub table: String,
    pub key: String,
}

/// Read every pair of a table.
#[derive(Debug, Clone, PartialEq, Eq)]
pub struct Hgetall {
    pub table: String,
}

/// Write one pair into a table.
#[derive(Debug, Clone, PartialEq, Eq)]
pub struct Hset {
    pub table: String,
    pub pair: Option<Kvpair>,
}

/// Remove one key of a table.
#[derive(Debug, Clone, PartialEq, Eq)]
pub struct Hdel {
    pub table: String,
    pub key: String,
}

/// Ask whether a table holds a key.
#[derive(Debug, Clone, PartialEq, Eq)]
pub struct Hexist {
    pub table: String,
    pub key: String,
}

/// The operation that a request carries.
#[derive(Debug, Clone, PartialEq, Eq)]
pub enum RequestData {
    Hget(Hget),
    Hgetall(Hgetall),
    Hset(Hset),
    Hdel(Hdel),
    Hexist(Hexist),
}

#[derive(Debug, Clone, PartialEq, Eq)]
pub struct CommandRequest {
    pub request_data: Option<RequestData>,
}

impl CommandRequest {
    pub fn new_hset(table: &str, key: &str, value: Value) -> (r: CommandRequest)
        ensures
            r.request_data matches Some(RequestData::Hset(h)) && h.table@ == table@ && (
            h.pair matches Some(p) && p.key@ == key@ && p.value == value),
    {
        CommandRequest {
            request_data: Some(
                RequestData::Hset(Hset { table: String::from_str(table), pair: Some(Kvpair::new(key, value)) }),
            ),
        }
    }

    pub fn new_hget(table: &str, key: &str) -> (r: CommandRequest)
        ensures
            r.request_data matches Some(RequestData::Hget(h)) && h.table@ == table@ && h.key@
                == key@,
    {
        CommandRequest {
            request_data: Some(
                RequestData::Hget(Hget { table: String::from_str(table), key: String::from_str(key) }),
            ),
        }
    }

    pub fn new_hgetall(table: &str) -> (r: CommandRequest)
        ensures
            r.request_data matches Some(RequestData::Hgetall(h)) && h.table@ == table@,
    {
        CommandRequest {
            request_data: Some(RequestData::Hgetall(Hgetall { table: String::from_str(table) })),
        }
    }

    pub fn new_hdel(table: &str, key: &str) -> (r: CommandRequest)
        ensures
            r.request_data matches Some(RequestData::Hdel(h)) && h.table@ == table@ && h.key@
                == key@,
    {
        CommandRequest {
            request_data: Some(
                RequestData::Hdel(Hdel { table: String::from_str(table), key: String::from_str(key) }),
            ),
        }
    }
}

/// The answer to one request.
#[derive(Debug, Clone, PartialEq, Eq)]
pub struct CommandResponse {
    pub status: u32,
    pub message: Option<String>,
    pub values: Vec<Value>,
    pub pairs: Vec<Kvpair>,
}

/// The mathematical model of a `CommandResponse`.
pub ghost struct ResponseModel {
    pub status: u32,
    pub message: Option<Seq<char>>,
    pub values: Seq<ValueModel>,
    pub pairs: Seq<(Seq<char>, ValueModel)>,
}

impl View for CommandResponse {
    type V = ResponseModel;

    open spec fn view(&self) -> ResponseModel {
        ResponseModel {
            status: self.status,
            message: match self.message {
                Some(m) => Some(m@),
                None => None,
            },
            values: values_model(self.values@),
            pairs: pairs_model(self.pairs@),
        }
    }
}

pub const STATUS_OK: u32 = 200;
pub const STATUS_BAD_REQUEST: u32 = 400;
pub const STATUS_NOT_FOUND: u32 = 404;
pub const STATUS_INTERNAL: u32 = 500;

/// A response is well formed when success carries no message and an error
/// carries neither values nor pairs.
pub open spec fn response_wf(r: ResponseModel) -> bool {
    &&& r.status == STATUS_OK ==> r.message is None
    &&& r.status != STATUS_OK ==> r.values.len() == 0 && r.pairs.len() == 0
}

impl CommandResponse {
    /// A success response holding one value.
    pub fn from_value(v: Value) -> (r: CommandResponse)
        ensures
            r@ == (ResponseModel {
                status: STATUS_OK,
                message: None,
                values: seq![v@],
                pairs: Seq::empty(),
            }),
    {
        let mut values: Vec<Value> = Vec::new();
        values.push(v);
        let r = CommandResponse { status: STATUS_OK, message: None, values, pairs: Vec::new() };
        assert(r@.values =~= seq![v@]);
        assert(r@.pairs =~= Seq::<(Seq<char>, ValueModel)>::empty());
        r
    }

    /// A success response holding the given values, in order.
    pub fn from_values(values: Vec<Value>) -> (r: CommandResponse)
        ensures
            r@ == (ResponseModel {
                status: STATUS_OK,
                message: None,
                values: values_model(values@),
                pairs: Seq::empty(),
            }),
    {
        let r = CommandResponse { status: STATUS_OK, message: None, values, pairs: Vec::new() };
        assert(r@.pairs =~= Seq::<(Seq<char>, ValueModel)>::empty());
        r
    }

    /// A success response holding the given pairs, in order.
    pub fn from_pairs(pairs: Vec<Kvpair>) -> (r: CommandResponse)
        ensures
            r@ == (ResponseModel {
                status: STATUS_OK,
                message: None,
                values: Seq::empty(),
                pairs: pairs_model(pairs@),
            }),
    {
        let r = CommandResponse { status: STATUS_OK, message: None, values: Vec::new(), pairs };
        assert(r@.values =~= Seq::<ValueModel>::empty());
        r
    }
}

} // verus!
