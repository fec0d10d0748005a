use vstd::prelude::*;

verus! {

/// A constant that the code generator placed in a chunk's pool.
///
/// Text is held as bytes. A `FLOAT` holds the digits of the literal as they
/// were written, for example `3.25`; turning them into a number is left to
/// the host, which hands the number back as a bit pattern.
#[derive(Debug)]
pub enum ConstantType {
    INT(i64),
    FLOAT(Vec<u8>),
    STRING(Vec<u8>),
    SYMBOL(Vec<u8>),
}

/// What a [`ConstantType`] is, with its text as a sequence of bytes.
pub enum Constant {
    Int(i64),
    Float(Seq<u8>),
    Str(Seq<u8>),
    Symbol(Seq<u8>),
}

impl DeepView for ConstantType {
    type V = Constant;

    open spec fn deep_view(&self) -> Constant {
        match self {
            ConstantType::INT(n) => Constant::Int(*n),
            ConstantType::FLOAT(t) => Constant::Float(t@),
            ConstantType::STRING(t) => Constant::Str(t@),
            ConstantType::SYMBOL(t) => Constant::Symbol(t@),
        }
    }
}

/// A value on the machine's stack or in its symbol table.
///
/// A `FLOAT` holds the bit pattern of a 64-bit IEEE number; the library
/// moves such values about and leaves every computation on them to the host.
#[derive(Debug)]
pub enum ValueType {
    BOOL(bool),
    NIL,
    FLOAT(u64),
    INT(i64),
    STRING(Vec<u8>),
    SYMBOL(Vec<u8>),
}

/// What a [`ValueType`] is, with its text as a sequence of bytes.
pub enum Value {
    Bool(bool),
    Nil,
    Float(u64),
    Int(i64),
    Str(Seq<u8>),
    Symbol(Seq<u8>),
}

impl DeepView for ValueType {
    type V = Value;

    open spec fn deep_view(&self) -> Value {
        match self {
            ValueType::BOOL(b) => Value::Bool(*b),
            ValueType::NIL => Value::Nil,
            ValueType::FLOAT(bits) => Value::Float(*bits),
            ValueType::INT(n) => Value::Int(*n),
            ValueType::STRING(t) => Value::Str(t@),
            ValueType::SYMBOL(t) => Value::Symbol(t@),
        }
    }
}

/// A copy of the bytes of `text`.
pub fn copy_bytes(text: &Vec<u8>) -> (copy: Vec<u8>)
    ensures
        copy@ == text@,
{
    let mut copy: Vec<u8> = Vec::new();
    let mut i: usize = 0;
    while i < text.len()
        invariant
            i <= text.len(),
            copy@ == text@.subrange(0, i as int),
        decreases text.len() - i,
    {
        copy.push(text[i]);
        i += 1;
        assert(copy@ =~= text@.subrange(0, i as int));
    }
    assert(text@.subrange(0, text.len() as int) =~= text@);
    copy
}

/// Whether two byte strings hold the same bytes.
pub fn same_bytes(a: &Vec<u8>, b: &Vec<u8>) -> (same: bool)
    ensures
        same <==> a@ == b@,
{
    if a.len() != b.len() {
        return false;
    }
    let mut i: usize = 0;
    while i < a.len()
        invariant
            i <= a.len(),
            a.len() == b.len(),
            a@.subrange(0, i as int) == b@.subrange(0, i as int),
        decreases a.len() - i,
    {
        if a[i] != b[i] {
            assert(a@[i as int] != b@[i as int]);
            return false;
        }
        i += 1;
        assert(a@.subrange(0, i as int) =~= a@.subrange(0, i - 1).push(a@[i - 1]));
        assert(b@.subrange(0, i as int) =~= b@.subrange(0, i - 1).push(b@[i - 1]));
    }
    assert(a@.subrange(0, a.len() as int) =~= a@);
    assert(b@.subrange(0, b.len() as int) =~= b@);
    true
}

impl ValueType {
    /// A copy of the value.
    pub fn copy(&self) -> (copy: ValueType)
        ensures
            copy.deep_view() == self.deep_view(),
    {
        match self {
            ValueType::BOOL(b) => ValueType::BOOL(*b),
            ValueType::NIL => ValueType::NIL,
            ValueType::FLOAT(bits) => ValueType::FLOAT(*bits),
            ValueType::INT(n) => ValueType::INT(*n),
            ValueType::STRING(t) => ValueType::STRING(copy_bytes(t)),
            ValueType::SYMBOL(t) => ValueType::SYMBOL(copy_bytes(t)),
        }
    }
}

/// The constants of a chunk, in the order in which they were added.
#[derive(Debug)]
pub struct Values {
    pub values: Vec<ConstantType>,
}

impl DeepView for Values {
    type V = Seq<Constant>;

    open spec fn deep_view(&self) -> Seq<Constant> {
        self.values.deep_view()
    }
}

/// An empty pool.
pub fn init_values() -> (pool: Values)
    ensures
        pool.deep_view() == Seq::<Constant>::empty(),
{
    let pool = Values { values: Vec::new() };
    assert(pool.deep_view() =~= Seq::<Constant>::empty());
    pool
}

impl Values {
    /// Adds `value` at the end of the pool and returns its index.
    pub fn write_values(&mut self, value: ConstantType) -> (index: usize)
        ensures
            index == old(self).values.len(),
            final(self).deep_view() == old(self).deep_view().push(value.deep_view()),
            final(self).values@ == old(self).values@.push(value),
    {
        self.values.push(value);
        assert(self.deep_view() =~= old(self).deep_view().push(value.deep_view()));
        self.values.len() - 1
    }
}

} // verus!
